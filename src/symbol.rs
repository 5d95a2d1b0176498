use vstd::prelude::*;

verus! {

/// The character that the empty production is written with.
pub const EPSILON: char = '\u{3b5}';

/// The role of a symbol in a grammar.
#[derive(Clone, Copy, Debug, PartialEq, Eq, Structural)]
pub enum SymbolType {
    Terminal,
    Nonterminal,
    EmptyLine,
}

/// Why a lookup or a scan found nothing.
#[derive(Clone, Copy, Debug, PartialEq, Eq, Structural)]
pub enum SymbolTypesError {
    /// Kept for a left-hand-side failure; no operation raises it.
    LeftError,
    /// No rule has the queried nonterminal on its left-hand side.
    RightError,
    /// A chain holds no nonterminal.
    NoSymbolError,
}

/// A character together with its role; two symbols are equal when both agree.
#[derive(Debug, PartialEq, Eq, Structural)]
pub struct Symbol {
    pub liter: char,
    pub symbol_type: SymbolType,
}

impl Clone for Symbol {
    fn clone(&self) -> (r: Self)
        ensures
            r == *self,
    {
        Symbol { liter: self.liter, symbol_type: self.symbol_type }
    }
}

/// The one-element list; its contract is the `ensures` of `from`, as no
/// `Vec` value can be written in a specification.
impl From<Symbol> for Vec<Symbol> {
    fn from(symbol: Symbol) -> (r: Vec<Symbol>)
        ensures
            r@ == seq![symbol],
    {
        let mut v = Vec::new();
        v.push(symbol);
        assert(v@ =~= seq![symbol]);
        v
    }
}

impl vstd::std_specs::convert::FromSpecImpl<Symbol> for Vec<Symbol> {
    open spec fn obeys_from_spec() -> bool {
        false
    }

    open spec fn from_spec(symbol: Symbol) -> Vec<Symbol> {
        vstd::pervasive::arbitrary()
    }
}

/// The symbol that stands for the empty production.
pub open spec fn epsilon_symbol() -> Symbol {
    Symbol { liter: EPSILON, symbol_type: SymbolType::EmptyLine }
}

impl Symbol {
    pub fn new(liter: char, symbol_type: SymbolType) -> (r: Self)
        ensures
            r.liter == liter,
            r.symbol_type == symbol_type,
    {
        Self { liter, symbol_type }
    }

    /// The symbol of the empty production.
    pub fn epsilon() -> (r: Self)
        ensures
            r == epsilon_symbol(),
    {
        Self { liter: EPSILON, symbol_type: SymbolType::EmptyLine }
    }
}

pub fn is_terminal(symbol: &Symbol) -> (r: bool)
    ensures
        r == (symbol.symbol_type == SymbolType::Terminal),
{
    match symbol.symbol_type {
        SymbolType::Terminal => true,
        _ => false,
    }
}

pub fn is_nonterminal(symbol: &Symbol) -> (r: bool)
    ensures
        r == (symbol.symbol_type == SymbolType::Nonterminal),
{
    match symbol.symbol_type {
        SymbolType::Nonterminal => true,
        _ => false,
    }
}

pub fn is_empty_line(symbol: &Symbol) -> (r: bool)
    ensures
        r == (symbol.symbol_type == SymbolType::EmptyLine),
{
    match symbol.symbol_type {
        SymbolType::EmptyLine => true,
        _ => false,
    }
}

} // verus!
