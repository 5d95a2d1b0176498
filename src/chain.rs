use vstd::prelude::*;

use crate::symbol::{Symbol, SymbolType, SymbolTypesError};

verus! {

/// The characters of a sequence of symbols, in order, with no separators.
pub open spec fn render(s: Seq<Symbol>) -> Seq<char> {
    s.map_values(|x: Symbol| x.liter)
}

/// `j` is the position of the leftmost nonterminal of `s`.
pub open spec fn is_first_nonterminal(s: Seq<Symbol>, j: int) -> bool {
    &&& 0 <= j < s.len()
    &&& s[j].symbol_type == SymbolType::Nonterminal
    &&& forall|k: int| 0 <= k < j ==> s[k].symbol_type != SymbolType::Nonterminal
}

/// No symbol of `s` is a nonterminal.
pub open spec fn no_nonterminal(s: Seq<Symbol>) -> bool {
    forall|k: int| 0 <= k < s.len() ==> s[k].symbol_type != SymbolType::Nonterminal
}

/// A sentential form, or the right-hand side of a rule: symbols read left to right.
#[derive(Debug)]
pub struct Chain {
    pub string: Vec<Symbol>,
}

impl View for Chain {
    type V = Seq<Symbol>;

    open spec fn view(&self) -> Seq<Symbol> {
        self.string@
    }
}

impl Clone for Chain {
    fn clone(&self) -> (r: Self)
        ensures
            r@ == self@,
    {
        let r = Chain { string: self.string.clone() };
        assert(r@ =~= self@);
        r
    }
}

impl Default for Chain {
    fn default() -> (r: Self)
        ensures
            r@ == Seq::<Symbol>::empty(),
    {
        Self { string: Vec::new() }
    }
}

impl PartialEq for Chain {
    fn eq(&self, other: &Chain) -> (r: bool)
        ensures
            r == (self@ == other@),
    {
        let n = self.string.len();
        if n != other.string.len() {
            return false;
        }
        let mut i: usize = 0;
        while i < n
            invariant
                n == self@.len(),
                n == other@.len(),
                i <= n,
                forall|k: int| 0 <= k < i ==> self@[k] == other@[k],
            decreases n - i,
        {
            if self.string[i] != other.string[i] {
                return false;
            }
            i = i + 1;
        }
        assert(self@ =~= other@);
        true
    }
}

impl vstd::std_specs::cmp::PartialEqSpecImpl for Chain {
    open spec fn obeys_eq_spec() -> bool {
        true
    }

    open spec fn eq_spec(&self, other: &Chain) -> bool {
        self@ == other@
    }
}

/// The one-element list; its contract is the `ensures` of `from`, as no
/// `Vec` value can be written in a specification.
impl From<Chain> for Vec<Chain> {
    fn from(chain: Chain) -> (r: Vec<Chain>)
        ensures
            r@ == seq![chain],
    {
        let mut v = Vec::new();
        v.push(chain);
        assert(v@ =~= seq![chain]);
        v
    }
}

impl vstd::std_specs::convert::FromSpecImpl<Chain> for Vec<Chain> {
    open spec fn obeys_from_spec() -> bool {
        false
    }

    open spec fn from_spec(chain: Chain) -> Vec<Chain> {
        vstd::pervasive::arbitrary()
    }
}

impl Chain {
    /// The chain of one symbol.
    pub fn new(s: Symbol) -> (r: Self)
        ensures
            r@ == seq![s],
    {
        Self { string: Vec::from(s) }
    }

    /// The chain of one symbol, meant for the empty production's symbol.
    pub fn new_empty(s: Symbol) -> (r: Self)
        ensures
            r@ == seq![s],
    {
        Self::new(s)
    }

    /// The characters of the chain, in order, with no separators.
    pub fn to_string(&self) -> (r: String)
        ensures
            r@ == render(self@),
    {
        let mut text = String::new();
        let mut i: usize = 0;
        while i < self.string.len()
            invariant
                i <= self@.len(),
                text@ =~= render(self@.subrange(0, i as int)),
            decreases self@.len() - i,
        {
            crate::text::push_char(&mut text, self.string[i].liter);
            assert(self@.subrange(0, i + 1) =~= self@.subrange(0, i as int).push(self@[i as int]));
            i = i + 1;
        }
        assert(self@.subrange(0, self@.len() as int) =~= self@);
        text
    }

    /// The leftmost nonterminal and its position, or `NoSymbolError` when there is none.
    pub fn get_nonterminal(&self) -> (r: Result<(Symbol, usize), SymbolTypesError>)
        ensures
            match r {
                Ok((s, j)) => is_first_nonterminal(self@, j as int) && s == self@[j as int],
                Err(e) => e == SymbolTypesError::NoSymbolError && no_nonterminal(self@),
            },
    {
        let mut i: usize = 0;
        while i < self.string.len()
            invariant
                i <= self@.len(),
                forall|k: int| 0 <= k < i ==> self@[k].symbol_type != SymbolType::Nonterminal,
            decreases self@.len() - i,
        {
            if let SymbolType::Nonterminal = self.string[i].symbol_type {
                return Ok((self.string[i].clone(), i));
            }
            i = i + 1;
        }
        Err(SymbolTypesError::NoSymbolError)
    }

    /// Appends one symbol at the end.
    pub fn add_symbol(&mut self, s: Symbol)
        ensures
            final(self)@ == old(self)@.push(s),
    {
        self.string.push(s);
    }

    /// Appends the symbols of `c` to the chain, which is consumed.
    pub fn add_chain(self, c: Chain) {
        let mut joined = self;
        let mut tail = c;
        joined.string.append(&mut tail.string);
    }
}

} // verus!
