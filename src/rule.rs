use vstd::prelude::*;

use crate::chain::{is_first_nonterminal, no_nonterminal, Chain};
use crate::symbol::{Symbol, SymbolType, SymbolTypesError};

verus! {

/// A rule seen as its left-hand symbol and its right-hand sequence.
pub type RuleModel = (Symbol, Seq<Symbol>);

/// `chain` with every occurrence of `left` replaced by the symbols of `right`.
pub open spec fn substitute(left: Symbol, right: Seq<Symbol>, chain: Seq<Symbol>) -> Seq<Symbol>
    decreases chain.len(),
{
    if chain.len() == 0 {
        Seq::empty()
    } else {
        let last = chain.last();
        substitute(left, right, chain.drop_last()) + if last == left {
            right
        } else {
            seq![last]
        }
    }
}

/// A production `left -> right`.
#[derive(Debug)]
pub struct Rule {
    pub left: Symbol,
    pub right: Chain,
}

impl View for Rule {
    type V = RuleModel;

    open spec fn view(&self) -> RuleModel {
        (self.left, self.right@)
    }
}

impl Clone for Rule {
    fn clone(&self) -> (r: Self)
        ensures
            r@ == self@,
    {
        Rule { left: self.left.clone(), right: self.right.clone() }
    }
}

impl Rule {
    /// Rewrites `chain`: each symbol equal to `left` becomes the symbols of
    /// `right`, the others are kept, all in order.
    pub fn gen_chain(&self, chain: Chain) -> (r: Chain)
        ensures
            r@ == substitute(self.left, self.right@, chain@),
    {
        let mut new_chain = Chain::default();
        let ghost input = chain@;
        let n = chain.string.len();
        let mut i: usize = 0;
        while i < n
            invariant
                n == input.len(),
                input == chain@,
                i <= n,
                new_chain@ == substitute(self.left, self.right@, input.subrange(0, i as int)),
            decreases n - i,
        {
            let s = &chain.string[i];
            let ghost before = new_chain@;
            proof {
                assert(input.subrange(0, i + 1).drop_last() =~= input.subrange(0, i as int));
                assert(input.subrange(0, i + 1).last() == input[i as int]);
            }
            if *s != self.left {
                new_chain.string.push(s.clone());
                assert(new_chain@ =~= before + seq![input[i as int]]);
            } else {
                let m = self.right.string.len();
                let mut j: usize = 0;
                while j < m
                    invariant
                        m == self.right@.len(),
                        j <= m,
                        new_chain@ =~= before + self.right@.subrange(0, j as int),
                    decreases m - j,
                {
                    new_chain.string.push(self.right.string[j].clone());
                    assert(self.right@.subrange(0, j + 1) =~= self.right@.subrange(0, j as int).push(
                        self.right@[j as int],
                    ));
                    j = j + 1;
                }
                assert(self.right@.subrange(0, m as int) =~= self.right@);
            }
            i = i + 1;
        }
        assert(input.subrange(0, n as int) =~= input);
        new_chain
    }

    /// The leftmost nonterminal of the right-hand side, or `NoSymbolError`
    /// when it holds none.
    pub fn get_nonterminal(&self) -> (r: Result<Symbol, SymbolTypesError>)
        ensures
            match r {
                Ok(s) => exists|j: int| is_first_nonterminal(self.right@, j) && s == self.right@[j],
                Err(e) => e == SymbolTypesError::NoSymbolError && no_nonterminal(self.right@),
            },
    {
        let mut i: usize = 0;
        while i < self.right.string.len()
            invariant
                i <= self.right@.len(),
                forall|k: int| 0 <= k < i ==> self.right@[k].symbol_type != SymbolType::Nonterminal,
            decreases self.right@.len() - i,
        {
            if self.right.string[i].symbol_type == SymbolType::Nonterminal {
                assert(is_first_nonterminal(self.right@, i as int));
                return Ok(self.right.string[i].clone());
            }
            i = i + 1;
        }
        Err(SymbolTypesError::NoSymbolError)
    }
}

/// Substituting a symbol that does not occur leaves the chain unchanged.
pub proof fn lemma_substitute_absent(left: Symbol, right: Seq<Symbol>, chain: Seq<Symbol>)
    requires
        forall|i: int| 0 <= i < chain.len() ==> chain[i] != left,
    ensures
        substitute(left, right, chain) == chain,
    decreases chain.len(),
{
    if chain.len() > 0 {
        lemma_substitute_absent(left, right, chain.drop_last());
        assert(chain.drop_last() + seq![chain.last()] =~= chain);
    }
}

/// Substitution rewrites every occurrence of the left-hand symbol, not only
/// the leftmost one: with `a` and `b` distinct nonterminals, the rule
/// `a -> [x]` turns `[a, b, a]` into `[x, b, x]`.
pub proof fn lemma_substitute_every_occurrence(a: Symbol, b: Symbol, x: Symbol)
    requires
        a != b,
        a.symbol_type == SymbolType::Nonterminal,
        b.symbol_type == SymbolType::Nonterminal,
    ensures
        substitute(a, seq![x], seq![a, b, a]) == seq![x, b, x],
{
    let s1 = seq![a];
    let s2 = seq![a, b];
    assert(seq![a, b, a].drop_last() =~= s2);
    assert(s2.drop_last() =~= s1);
    assert(s1.drop_last() =~= Seq::<Symbol>::empty());
    assert(substitute(a, seq![x], Seq::<Symbol>::empty()) == Seq::<Symbol>::empty());
    assert(s1.last() == a);
    assert(substitute(a, seq![x], s1) =~= seq![x]);
    assert(substitute(a, seq![x], s2) =~= seq![x, b]);
    assert(substitute(a, seq![x], seq![a, b, a]) =~= seq![x, b, x]);
}

/// A rule between two chains.
#[derive(Clone, Debug)]
pub struct ExRule {
    pub left: Chain,
    pub right: Chain,
}

} // verus!
