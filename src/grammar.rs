use vstd::prelude::*;

use crate::chain::{is_first_nonterminal, no_nonterminal, render, Chain};
use crate::rule::{substitute, Rule, RuleModel};
use vstd::string::StringExecFns;

use crate::symbol::{epsilon_symbol, Symbol, SymbolType, SymbolTypesError};

verus! {

/// The rules of `rules` whose left-hand character is `c`, in order.
pub open spec fn rules_for(rules: Seq<RuleModel>, c: char) -> Seq<RuleModel>
    decreases rules.len(),
{
    if rules.len() == 0 {
        Seq::empty()
    } else {
        let found = rules_for(rules.drop_last(), c);
        if rules.last().0.liter == c {
            found.push(rules.last())
        } else {
            found
        }
    }
}

/// Each character of `s` followed by one space.
pub open spec fn alphabet_text(s: Seq<Symbol>) -> Seq<char>
    decreases s.len(),
{
    if s.len() == 0 {
        Seq::empty()
    } else {
        alphabet_text(s.drop_last()) + seq![s.last().liter, ' ']
    }
}

/// The separator between two sentential forms in a trace.
pub open spec fn arrow() -> Seq<char> {
    seq![' ', '-', '>', ' ']
}

/// The sentential forms rendered in order, joined by the separator.
pub open spec fn trace_text(forms: Seq<Seq<Symbol>>) -> Seq<char>
    decreases forms.len(),
{
    if forms.len() == 0 {
        Seq::empty()
    } else if forms.len() == 1 {
        render(forms[0])
    } else {
        trace_text(forms.drop_last()) + arrow() + render(forms.last())
    }
}

/// How many times the separator occurs in `s`, counted by where each
/// occurrence ends.
pub open spec fn count_separators(s: Seq<char>) -> nat
    decreases s.len(),
{
    if s.len() < 4 {
        0
    } else {
        count_separators(s.drop_last()) + if s.subrange(s.len() - 4, s.len() as int) == arrow() {
            1nat
        } else {
            0nat
        }
    }
}

/// No symbol of `form` is written with a space or `>`.
pub open spec fn is_plain_form(form: Seq<Symbol>) -> bool {
    forall|i: int| 0 <= i < form.len() ==> (#[trigger] form[i]).liter != ' ' && form[i].liter != '>'
}

/// Text without spaces adds no separator.
proof fn lemma_count_append_spaceless(x: Seq<char>, r: Seq<char>)
    requires
        forall|i: int| 0 <= i < r.len() ==> r[i] != ' ',
    ensures
        count_separators(x + r) == count_separators(x),
    decreases r.len(),
{
    if r.len() == 0 {
        assert(x + r =~= x);
    } else {
        lemma_count_append_spaceless(x, r.drop_last());
        let s = x + r;
        assert(s.drop_last() =~= x + r.drop_last());
        if s.len() >= 4 {
            let w = s.subrange(s.len() - 4, s.len() as int);
            assert(w[3] == r.last());
            assert(w != arrow()) by {
                if w == arrow() {
                    assert(arrow()[3] == ' ');
                }
            }
        }
    }
}

/// A separator after text whose last character is not `>` adds exactly one.
proof fn lemma_count_append_arrow(x: Seq<char>)
    requires
        x.len() > 0,
        x.last() != '>',
    ensures
        count_separators(x + arrow()) == count_separators(x) + 1,
{
    let a = arrow();
    let s0 = x + seq![a[0]];
    let s1 = s0 + seq![a[1]];
    let s2 = s1 + seq![a[2]];
    let s3 = s2 + seq![a[3]];
    assert(s3 =~= x + a);
    assert(s3.drop_last() =~= s2);
    assert(s2.drop_last() =~= s1);
    assert(s1.drop_last() =~= s0);
    assert(s0.drop_last() =~= x);
    assert(a[0] == ' ' && a[1] == '-' && a[2] == '>' && a[3] == ' ');
    assert(count_separators(s0) == count_separators(x)) by {
        if s0.len() >= 4 {
            let w = s0.subrange(s0.len() - 4, s0.len() as int);
            assert(w[2] == x.last());
            assert(w != a) by {
                if w == a {
                    assert(w[2] == a[2]);
                }
            }
        }
    }
    assert(count_separators(s1) == count_separators(s0)) by {
        if s1.len() >= 4 {
            let w = s1.subrange(s1.len() - 4, s1.len() as int);
            assert(w[3] == '-');
            assert(w != a) by {
                if w == a {
                    assert(w[3] == a[3]);
                }
            }
        }
    }
    assert(count_separators(s2) == count_separators(s1)) by {
        let w = s2.subrange(s2.len() - 4, s2.len() as int);
        assert(w[3] == '>');
        assert(w != a) by {
            if w == a {
                assert(w[3] == a[3]);
            }
        }
    }
    assert(s3.subrange(s3.len() - 4, s3.len() as int) =~= a);
}

/// The trace of plain forms, the first of them not empty, is not empty and
/// does not end with `>`.
proof fn lemma_trace_last(forms: Seq<Seq<Symbol>>)
    requires
        forms.len() >= 1,
        forms[0].len() > 0,
        forall|k: int| 0 <= k < forms.len() ==> is_plain_form(#[trigger] forms[k]),
    ensures
        trace_text(forms).len() > 0,
        trace_text(forms).last() != '>',
    decreases forms.len(),
{
    let last = forms[forms.len() - 1];
    assert(forms.last() == last);
    let r = render(last);
    if r.len() > 0 {
        assert(r.last() == last[last.len() - 1].liter);
    }
    if forms.len() > 1 {
        let prefix = forms.drop_last();
        assert forall|k: int| 0 <= k < prefix.len() implies is_plain_form(#[trigger] prefix[k]) by {
            assert(prefix[k] == forms[k]);
        }
        assert(prefix[0] == forms[0]);
        lemma_trace_last(prefix);
        let t = trace_text(prefix) + arrow() + r;
        assert(t == trace_text(forms));
        if r.len() == 0 {
            assert(t.last() == arrow()[3]);
        } else {
            assert(t.last() == r.last());
        }
    }
}

/// A trace of `n` forms holds the separator exactly `n - 1` times, when no
/// symbol is written with a space or `>` and the first form is not empty.
pub proof fn lemma_trace_separators(forms: Seq<Seq<Symbol>>)
    requires
        forms.len() >= 1,
        forms[0].len() > 0,
        forall|k: int| 0 <= k < forms.len() ==> is_plain_form(#[trigger] forms[k]),
    ensures
        count_separators(trace_text(forms)) == forms.len() - 1,
    decreases forms.len(),
{
    let r = render(forms.last());
    assert(forms.last() == forms[forms.len() - 1]);
    assert forall|i: int| 0 <= i < r.len() implies r[i] != ' ' by {
        assert(forms.last()[i].liter != ' ');
    }
    if forms.len() == 1 {
        lemma_count_append_spaceless(Seq::empty(), r);
        assert(Seq::<char>::empty() + r =~= r);
    } else {
        let prefix = forms.drop_last();
        assert forall|k: int| 0 <= k < prefix.len() implies is_plain_form(#[trigger] prefix[k]) by {
            assert(prefix[k] == forms[k]);
        }
        assert(prefix[0] == forms[0]);
        lemma_trace_separators(prefix);
        lemma_trace_last(prefix);
        lemma_count_append_arrow(trace_text(prefix));
        lemma_count_append_spaceless(trace_text(prefix) + arrow(), r);
    }
}

/// The chains of a list, each as its sequence of symbols.
pub open spec fn chain_models(chains: Seq<Chain>) -> Seq<Seq<Symbol>> {
    chains.map_values(|c: Chain| c@)
}

/// A right-hand side as the generator builds it: the empty production alone,
/// or one to four symbols, a nonterminal of the alphabet first and terminals of
/// the alphabet after it.
pub open spec fn is_generated_right(right: Seq<Symbol>, terminals: Seq<Symbol>, nonterminals: Seq<Symbol>) -> bool {
    ||| right == seq![epsilon_symbol()]
    ||| {
        &&& 1 <= right.len() <= 4
        &&& nonterminals.contains(right[0])
        &&& forall|i: int| 1 <= i < right.len() ==> terminals.contains(#[trigger] right[i])
    }
}

/// A right-hand side of the allowed shape: the empty production alone, or one
/// to four symbols, a nonterminal first and terminals after it.
pub open spec fn is_well_shaped_right(right: Seq<Symbol>) -> bool {
    ||| right == seq![epsilon_symbol()]
    ||| {
        &&& 1 <= right.len() <= 4
        &&& right[0].symbol_type == SymbolType::Nonterminal
        &&& forall|i: int| 1 <= i < right.len() ==> (#[trigger] right[i]).symbol_type == SymbolType::Terminal
    }
}

/// The most steps a derivation walk takes.
pub const MAX_STEPS: usize = 10;

/// The symbol of the letter `base + code` with the given role.
pub open spec fn letter(base: u8, code: u8, role: SymbolType) -> Symbol {
    Symbol { liter: ((base + code) as u8) as char, symbol_type: role }
}

/// The random draws that decide one rule: the index of its left-hand
/// nonterminal, whether it is the empty production, and else the index of its
/// leading nonterminal and the indices of the terminals after it.
#[derive(Clone, Debug)]
pub struct RuleDraw {
    pub left: usize,
    pub empty: bool,
    pub lead: usize,
    pub tail: Vec<usize>,
}

impl RuleDraw {
    /// Every index lies within alphabets of the given sizes.
    pub open spec fn fits(&self, t_len: nat, nt_len: nat) -> bool {
        &&& self.left < nt_len
        &&& !self.empty ==> self.lead < nt_len && forall|k: int|
            0 <= k < self.tail@.len() ==> self.tail@[k] < t_len
    }

    /// The rule these draws decide over the given alphabets.
    pub open spec fn rule(&self, t: Seq<Symbol>, nt: Seq<Symbol>) -> RuleModel {
        (
            nt[self.left as int],
            if self.empty {
                seq![epsilon_symbol()]
            } else {
                seq![nt[self.lead as int]] + self.tail@.map_values(|k: usize| t[k as int])
            },
        )
    }
}

/// A context-free grammar: two alphabets, the rules in order and a start symbol.
#[derive(Debug)]
pub struct Grammar {
    pub terminals: Vec<Symbol>,
    pub nonterminals: Vec<Symbol>,
    pub rules: Vec<Rule>,
    pub initial_state: Symbol,
}

/// The rules of a list, each as its left-hand symbol and right-hand sequence.
pub open spec fn rule_models(rules: Seq<Rule>) -> Seq<RuleModel> {
    rules.map_values(|r: Rule| r@)
}

impl Grammar {
    /// The rules as left-hand symbols and right-hand sequences.
    pub open spec fn models(&self) -> Seq<RuleModel> {
        rule_models(self.rules@)
    }

    /// The grammar has the shape that the random generator gives: alphabet
    /// and rule counts in their ranges, lowercase terminals and uppercase
    /// nonterminals, rules over the alphabets, and the first nonterminal as the
    /// start symbol.
    pub open spec fn is_generated(&self) -> bool {
        let t = self.terminals@;
        let nt = self.nonterminals@;
        &&& 5 <= t.len() <= 9
        &&& 5 <= nt.len() <= 9
        &&& 20 <= self.rules@.len() <= 24
        &&& forall|i: int|
            0 <= i < t.len() ==> (#[trigger] t[i]).symbol_type == SymbolType::Terminal && 97 <= (
            t[i].liter as u32) < 123
        &&& forall|i: int|
            0 <= i < nt.len() ==> (#[trigger] nt[i]).symbol_type == SymbolType::Nonterminal && 65 <= (
            nt[i].liter as u32) < 91
        &&& forall|i: int|
            0 <= i < self.rules@.len() ==> nt.contains((#[trigger] self.rules@[i]).left)
                && is_generated_right(self.rules@[i].right@, t, nt)
        &&& self.initial_state == nt[0]
    }

    /// The symbols of the letters `base + code` for each code, in order, all
    /// with the given role.
    fn letters(codes: &Vec<u8>, base: u8, role: SymbolType) -> (r: Vec<Symbol>)
        requires
            base == 65 || base == 97,
            forall|i: int| 0 <= i < codes@.len() ==> codes@[i] < 26,
        ensures
            r@.len() == codes@.len(),
            forall|i: int| 0 <= i < codes@.len() ==> #[trigger] r@[i] == letter(base, codes@[i], role),
    {
        let mut symbols: Vec<Symbol> = Vec::new();
        let mut i: usize = 0;
        while i < codes.len()
            invariant
                i <= codes@.len(),
                symbols@.len() == i,
                base == 65 || base == 97,
                forall|k: int| 0 <= k < codes@.len() ==> codes@[k] < 26,
                forall|k: int| 0 <= k < i ==> #[trigger] symbols@[k] == letter(base, codes@[k], role),
            decreases codes@.len() - i,
        {
            let code: u8 = base + codes[i];
            symbols.push(Symbol::new(code as char, role));
            i = i + 1;
        }
        symbols
    }

    /// The grammar that a set of draws decides: the terminal letters `a` + code
    /// and the nonterminal letters `A` + code in order, then one rule for each
    /// rule draw, and the first nonterminal as the start symbol.
    pub fn grammar_from_draws(t_codes: &Vec<u8>, nt_codes: &Vec<u8>, rules: &Vec<RuleDraw>) -> (g: Grammar)
        requires
            nt_codes@.len() > 0,
            forall|i: int| 0 <= i < t_codes@.len() ==> t_codes@[i] < 26,
            forall|i: int| 0 <= i < nt_codes@.len() ==> nt_codes@[i] < 26,
            forall|i: int|
                0 <= i < rules@.len() ==> (#[trigger] rules@[i]).fits(t_codes@.len(), nt_codes@.len()),
        ensures
            g.terminals@.len() == t_codes@.len(),
            forall|i: int|
                0 <= i < t_codes@.len() ==> #[trigger] g.terminals@[i] == letter(
                    97,
                    t_codes@[i],
                    SymbolType::Terminal,
                ),
            g.nonterminals@.len() == nt_codes@.len(),
            forall|i: int|
                0 <= i < nt_codes@.len() ==> #[trigger] g.nonterminals@[i] == letter(
                    65,
                    nt_codes@[i],
                    SymbolType::Nonterminal,
                ),
            g.rules@.len() == rules@.len(),
            forall|i: int|
                0 <= i < rules@.len() ==> #[trigger] g.rules@[i]@ == rules@[i].rule(
                    g.terminals@,
                    g.nonterminals@,
                ),
            g.initial_state == g.nonterminals@[0],
    {
        let terminals = Self::letters(t_codes, 97, SymbolType::Terminal);
        let nonterminals = Self::letters(nt_codes, 65, SymbolType::Nonterminal);
        let mut built: Vec<Rule> = Vec::new();
        let mut i: usize = 0;
        while i < rules.len()
            invariant
                i <= rules@.len(),
                built@.len() == i,
                terminals@.len() == t_codes@.len(),
                nonterminals@.len() == nt_codes@.len(),
                forall|k: int|
                    0 <= k < rules@.len() ==> (#[trigger] rules@[k]).fits(t_codes@.len(), nt_codes@.len()),
                forall|k: int|
                    0 <= k < i ==> #[trigger] built@[k]@ == rules@[k].rule(terminals@, nonterminals@),
            decreases rules@.len() - i,
        {
            let draw = &rules[i];
            let left = nonterminals[draw.left].clone();
            let mut right = Chain::default();
            if draw.empty {
                right.add_symbol(Symbol::epsilon());
                assert(right@ =~= seq![epsilon_symbol()]);
            } else {
                right.add_symbol(nonterminals[draw.lead].clone());
                let mut j: usize = 0;
                while j < draw.tail.len()
                    invariant
                        j <= draw.tail@.len(),
                        draw.fits(terminals@.len(), nonterminals@.len()),
                        !draw.empty,
                        right@ =~= seq![nonterminals@[draw.lead as int]] + draw.tail@.subrange(
                            0,
                            j as int,
                        ).map_values(|k: usize| terminals@[k as int]),
                    decreases draw.tail@.len() - j,
                {
                    right.add_symbol(terminals[draw.tail[j]].clone());
                    assert(draw.tail@.subrange(0, j + 1) =~= draw.tail@.subrange(0, j as int).push(
                        draw.tail@[j as int],
                    ));
                    j = j + 1;
                }
                assert(draw.tail@.subrange(0, draw.tail@.len() as int) =~= draw.tail@);
            }
            built.push(Rule { left, right });
            i = i + 1;
        }
        let initial_state = nonterminals[0].clone();
        Grammar { terminals, nonterminals, rules: built, initial_state }
    }

    /// `count` letter offsets drawn at random below 26.
    fn draw_codes(count: usize) -> (r: Vec<u8>)
        ensures
            r@.len() == count,
            forall|i: int| 0 <= i < count ==> r@[i] < 26,
    {
        let mut codes: Vec<u8> = Vec::new();
        let mut i: usize = 0;
        while i < count
            invariant
                i <= count,
                codes@.len() == i,
                forall|k: int| 0 <= k < i ==> codes@[k] < 26,
            decreases count - i,
        {
            codes.push(crate::draw::draw_below(0, 26) as u8);
            i = i + 1;
        }
        codes
    }

    /// The draws of one rule: a left-hand index, then with chance one in four
    /// the empty production, else a lead index and up to three terminal
    /// indices.
    fn draw_rule(t_count: usize, nt_count: usize) -> (d: RuleDraw)
        requires
            0 < t_count,
            0 < nt_count,
        ensures
            d.fits(t_count as nat, nt_count as nat),
            d.tail@.len() <= 3,
    {
        let left = crate::draw::draw_below(0, nt_count);
        let empty = crate::draw::draw_ratio(1, 4);
        let mut tail: Vec<usize> = Vec::new();
        if empty {
            return RuleDraw { left, empty, lead: 0, tail };
        }
        let num_symbols = crate::draw::draw_below(1, 5);
        let lead = crate::draw::draw_below(0, nt_count);
        let mut j: usize = 1;
        while j < num_symbols
            invariant
                1 <= j <= num_symbols <= 4,
                0 < t_count,
                tail@.len() == j - 1,
                forall|k: int| 0 <= k < tail@.len() ==> tail@[k] < t_count,
            decreases num_symbols - j,
        {
            tail.push(crate::draw::draw_below(0, t_count));
            j = j + 1;
        }
        RuleDraw { left, empty, lead, tail }
    }

    /// A grammar drawn at random: five to nine terminals and nonterminals,
    /// twenty to twenty-four rules, each the empty production with chance one
    /// in four, else a drawn nonterminal followed by up to three drawn
    /// terminals; the start symbol is the first nonterminal.
    pub fn generate_random() -> (g: Self)
        ensures
            g.is_generated(),
    {
        let terminals_count = crate::draw::draw_below(5, 10);
        let nonterminals_count = crate::draw::draw_below(5, 10);
        let rules_count = crate::draw::draw_below(20, 25);
        let t_codes = Self::draw_codes(terminals_count);
        let nt_codes = Self::draw_codes(nonterminals_count);
        let mut draws: Vec<RuleDraw> = Vec::new();
        let mut i: usize = 0;
        while i < rules_count
            invariant
                i <= rules_count,
                draws@.len() == i,
                5 <= terminals_count,
                5 <= nonterminals_count,
                forall|k: int|
                    0 <= k < i ==> (#[trigger] draws@[k]).fits(terminals_count as nat, nonterminals_count as nat)
                        && draws@[k].tail@.len() <= 3,
            decreases rules_count - i,
        {
            draws.push(Self::draw_rule(terminals_count, nonterminals_count));
            i = i + 1;
        }
        let g = Self::grammar_from_draws(&t_codes, &nt_codes, &draws);
        proof {
            let t = g.terminals@;
            let nt = g.nonterminals@;
            assert forall|i: int| 0 <= i < t.len() implies (#[trigger] t[i]).symbol_type
                == SymbolType::Terminal && 97 <= (t[i].liter as u32) < 123 by {
                assert(t[i] == letter(97, t_codes@[i], SymbolType::Terminal));
            }
            assert forall|i: int| 0 <= i < nt.len() implies (#[trigger] nt[i]).symbol_type
                == SymbolType::Nonterminal && 65 <= (nt[i].liter as u32) < 91 by {
                assert(nt[i] == letter(65, nt_codes@[i], SymbolType::Nonterminal));
            }
            assert forall|i: int| 0 <= i < g.rules@.len() implies nt.contains(
                (#[trigger] g.rules@[i]).left,
            ) && is_generated_right(g.rules@[i].right@, t, nt) by {
                let d = draws@[i];
                assert(g.rules@[i]@ == d.rule(t, nt));
                assert(nt[d.left as int] == g.rules@[i].left);
                let right = g.rules@[i].right@;
                if !d.empty {
                    assert(right[0] == nt[d.lead as int]);
                    assert forall|m: int| 1 <= m < right.len() implies t.contains(#[trigger] right[m]) by {
                        assert(right[m] == t[d.tail@[m - 1] as int]);
                    }
                }
            }
        }
        g
    }

    /// Neither the start symbol nor any right-hand side holds a symbol written
    /// with a space or `>`.
    pub open spec fn has_plain_symbols(&self) -> bool {
        &&& self.initial_state.liter != ' '
        &&& self.initial_state.liter != '>'
        &&& forall|i: int| 0 <= i < self.rules@.len() ==> is_plain_form((#[trigger] self.rules@[i]).right@)
    }

    /// The rule of step `k` (from 1) was drawn among those of the cursor:
    /// the start symbol at the first step, and after that the leftmost
    /// nonterminal of the rule applied before.
    pub open spec fn step_is_drawn(&self, steps: Seq<RuleModel>, k: int) -> bool {
        if k == 1 {
            rules_for(self.models(), self.initial_state.liter).contains(steps[1])
        } else {
            exists|j: int|
                #[trigger] is_first_nonterminal(steps[k - 1].1, j) && rules_for(
                    self.models(),
                    steps[k - 1].1[j].liter,
                ).contains(steps[k])
        }
    }

    /// The walk could not go on after its last step: the cursor has no rule,
    /// or the last rule applied holds no nonterminal.
    pub open spec fn is_stopped(&self, steps: Seq<RuleModel>) -> bool {
        let n = steps.len();
        if n == 1 {
            rules_for(self.models(), self.initial_state.liter).len() == 0
        } else {
            no_nonterminal(steps[n - 1].1) || exists|j: int|
                #[trigger] is_first_nonterminal(steps[n - 1].1, j) && rules_for(
                    self.models(),
                    steps[n - 1].1[j].liter,
                ).len() == 0
        }
    }

    /// Each form after the first comes from the one before by the rule of its
    /// step, and that rule was drawn for the cursor.
    pub open spec fn steps_follow(&self, forms: Seq<Seq<Symbol>>, steps: Seq<RuleModel>) -> bool {
        forall|k: int|
            1 <= k < forms.len() ==> #[trigger] self.step_is_drawn(steps, k) && forms[k]
                == substitute(steps[k].0, steps[k].1, forms[k - 1])
    }

    /// A record that follows stays so when a step whose rule was drawn for the
    /// cursor and applied to the last form is added.
    proof fn lemma_steps_extend(
        &self,
        forms: Seq<Seq<Symbol>>,
        steps: Seq<RuleModel>,
        next: Seq<Symbol>,
        step: RuleModel,
    )
        requires
            self.steps_follow(forms, steps),
            forms.len() == steps.len(),
            forms.len() >= 1,
            self.step_is_drawn(steps.push(step), forms.len() as int),
            next == substitute(step.0, step.1, forms.last()),
        ensures
            self.steps_follow(forms.push(next), steps.push(step)),
    {
        let n = forms.len() as int;
        let forms1 = forms.push(next);
        let steps1 = steps.push(step);
        assert forall|k: int| 1 <= k < forms1.len() implies #[trigger] self.step_is_drawn(steps1, k)
            && forms1[k] == substitute(steps1[k].0, steps1[k].1, forms1[k - 1]) by {
            if k < n {
                assert(self.step_is_drawn(steps, k));
                assert(steps1[k] == steps[k]);
                assert(steps1[k - 1] == steps[k - 1]);
                assert(forms1[k] == forms[k]);
                assert(forms1[k - 1] == forms[k - 1]);
            }
        }
    }

    /// `forms` and `steps` are the record of a derivation walk: the start
    /// symbol and the identity rule on it first, then each form obtained from
    /// the one before by a drawn rule, until the walk stopped or took the most
    /// steps.
    pub open spec fn is_derivation(&self, forms: Seq<Seq<Symbol>>, steps: Seq<RuleModel>) -> bool {
        let start = self.initial_state;
        &&& forms.len() == steps.len()
        &&& 1 <= forms.len() <= MAX_STEPS + 1
        &&& forms[0] == seq![start]
        &&& steps[0] == (start, seq![start])
        &&& self.steps_follow(forms, steps)
        &&& forms.len() < MAX_STEPS + 1 ==> self.is_stopped(steps)
    }

    /// Walks a derivation from the start symbol: at each step a rule of the
    /// cursor is drawn and applied to the last form, and the cursor moves to the
    /// leftmost nonterminal of that rule. Returns the forms, the rules applied
    /// (after the identity rule on the start symbol) and the trace text.
    pub fn generate_line(&self) -> (r: (Vec<Chain>, Vec<Rule>, String))
        ensures
            self.is_derivation(chain_models(r.0@), rule_models(r.1@)),
            r.2@ == trace_text(chain_models(r.0@)),
    {
        let start = self.initial_state.clone();
        let mut cursor = self.initial_state.clone();
        let mut chains: Vec<Chain> = Vec::new();
        chains.push(Chain::new(start.clone()));
        let mut trace = chains[0].to_string();
        let mut rules: Vec<Rule> = Vec::new();
        rules.push(Rule { left: start.clone(), right: Chain::new(start) });
        let mut stopped = false;
        let mut i: usize = 0;
        proof {
            reveal_strlit(" -> ");
            assert(" -> "@ =~= arrow());
            assert(chain_models(chains@) =~= seq![seq![self.initial_state]]);
        }
        while i < MAX_STEPS && !stopped
            invariant
                " -> "@ == arrow(),
                i <= MAX_STEPS,
                chains@.len() == rules@.len(),
                1 <= chains@.len() <= i + 1,
                !stopped ==> chains@.len() == i + 1,
                chain_models(chains@)[0] == seq![self.initial_state],
                rule_models(rules@)[0] == (self.initial_state, seq![self.initial_state]),
                self.steps_follow(chain_models(chains@), rule_models(rules@)),
                trace@ == trace_text(chain_models(chains@)),
                stopped ==> self.is_stopped(rule_models(rules@)),
                !stopped && chains@.len() == 1 ==> cursor == self.initial_state,
                !stopped && chains@.len() > 1 ==> exists|j: int|
                    #[trigger] is_first_nonterminal(rules@.last().right@, j) && cursor
                        == rules@.last().right@[j],
            decreases MAX_STEPS - i,
        {
            let ghost forms0 = chain_models(chains@);
            let ghost steps0 = rule_models(rules@);
            let ghost n = chains@.len();
            let ghost jc: int = if n > 1 {
                choose|j: int|
                    #[trigger] is_first_nonterminal(rules@.last().right@, j) && cursor
                        == rules@.last().right@[j]
            } else {
                0
            };
            match self.get_random_nonterminal_rule(&cursor) {
                Ok(r) => {
                    let last = chains[chains.len() - 1].clone();
                    let next = r.gen_chain(last);
                    let ghost next_form = next@;
                    let rendered = next.to_string();
                    chains.push(next);
                    trace.append(" -> ");
                    trace.append(rendered.as_str());
                    proof {
                        assert(chain_models(chains@) =~= forms0.push(next_form));
                        assert(chain_models(chains@).drop_last() =~= forms0);
                        if n > 1 {
                            assert(steps0.push(r@)[n - 1] == steps0[n - 1]);
                            assert(is_first_nonterminal(steps0.push(r@)[n - 1].1, jc));
                        }
                        assert(self.step_is_drawn(steps0.push(r@), n as int));
                        self.lemma_steps_extend(forms0, steps0, next_form, r@);
                    }
                    match r.get_nonterminal() {
                        Ok(nt) => {
                            cursor = nt;
                        },
                        Err(_) => {
                            stopped = true;
                        },
                    }
                    rules.push(r);
                    assert(rule_models(rules@) =~= steps0.push(r@));
                },
                Err(_) => {
                    stopped = true;
                },
            }
            i = i + 1;
        }
        (chains, rules, trace)
    }

    fn alphabet_string(symbols: &Vec<Symbol>) -> (r: String)
        ensures
            r@ == alphabet_text(symbols@),
    {
        let mut text = String::new();
        let mut i: usize = 0;
        while i < symbols.len()
            invariant
                i <= symbols@.len(),
                text@ == alphabet_text(symbols@.subrange(0, i as int)),
            decreases symbols@.len() - i,
        {
            crate::text::push_char(&mut text, symbols[i].liter);
            crate::text::push_char(&mut text, ' ');
            proof {
                let next = symbols@.subrange(0, i + 1);
                assert(next.drop_last() =~= symbols@.subrange(0, i as int));
                assert(text@ =~= alphabet_text(next));
            }
            i = i + 1;
        }
        assert(symbols@.subrange(0, symbols@.len() as int) =~= symbols@);
        text
    }

    /// The terminal characters in order, each followed by a space.
    pub fn get_terminals(&self) -> (r: String)
        ensures
            r@ == alphabet_text(self.terminals@),
    {
        Self::alphabet_string(&self.terminals)
    }

    /// The nonterminal characters in order, each followed by a space.
    pub fn get_nonterminals(&self) -> (r: String)
        ensures
            r@ == alphabet_text(self.nonterminals@),
    {
        Self::alphabet_string(&self.nonterminals)
    }

    /// Every rule whose left-hand character is that of `nt`, in order, or
    /// `RightError` when there is none.
    pub fn get_nonterminal_rules(&self, nt: &Symbol) -> (r: Result<Vec<Rule>, SymbolTypesError>)
        ensures
            match r {
                Ok(v) => rule_models(v@) == rules_for(self.models(), nt.liter) && v@.len() > 0,
                Err(e) => e == SymbolTypesError::RightError && rules_for(self.models(), nt.liter).len()
                    == 0,
            },
    {
        let mut found: Vec<Rule> = Vec::new();
        let mut i: usize = 0;
        while i < self.rules.len()
            invariant
                i <= self.rules@.len(),
                rule_models(found@) =~= rules_for(self.models().subrange(0, i as int), nt.liter),
            decreases self.rules@.len() - i,
        {
            let ghost before = found@;
            proof {
                let next = self.models().subrange(0, i + 1);
                assert(next.drop_last() =~= self.models().subrange(0, i as int));
                assert(next.last() == self.rules@[i as int]@);
            }
            if self.rules[i].left.liter == nt.liter {
                found.push(self.rules[i].clone());
                assert(rule_models(found@) =~= rule_models(before).push(self.rules@[i as int]@));
            }
            i = i + 1;
        }
        assert(self.models().subrange(0, self.rules@.len() as int) =~= self.models());
        if found.len() > 0 {
            Ok(found)
        } else {
            Err(SymbolTypesError::RightError)
        }
    }

    /// The first rule whose left-hand character is that of `nt`, or
    /// `RightError` when there is none.
    pub fn get_nonterminal_rule(&self, nt: &Symbol) -> (r: Result<Rule, SymbolTypesError>)
        ensures
            match r {
                Ok(rule) => exists|i: int|
                    0 <= i < self.rules@.len() && self.rules@[i].left.liter == nt.liter && rule@
                        == self.rules@[i]@ && forall|k: int|
                        0 <= k < i ==> self.rules@[k].left.liter != nt.liter,
                Err(e) => e == SymbolTypesError::RightError && forall|k: int|
                    0 <= k < self.rules@.len() ==> self.rules@[k].left.liter != nt.liter,
            },
    {
        let mut i: usize = 0;
        while i < self.rules.len()
            invariant
                i <= self.rules@.len(),
                forall|k: int| 0 <= k < i ==> self.rules@[k].left.liter != nt.liter,
            decreases self.rules@.len() - i,
        {
            if self.rules[i].left.liter == nt.liter {
                return Ok(self.rules[i].clone());
            }
            i = i + 1;
        }
        Err(SymbolTypesError::RightError)
    }

    /// One of the rules whose left-hand character is that of `nt`, drawn at
    /// random, or `RightError` when there is none.
    pub fn get_random_nonterminal_rule(&self, nt: &Symbol) -> (r: Result<Rule, SymbolTypesError>)
        ensures
            match r {
                Ok(rule) => rules_for(self.models(), nt.liter).contains(rule@),
                Err(e) => e == SymbolTypesError::RightError && rules_for(self.models(), nt.liter).len()
                    == 0,
            },
    {
        match self.get_nonterminal_rules(nt) {
            Ok(found) => {
                let k = crate::draw::draw_below(0, found.len());
                let rule = found[k].clone();
                assert(rule_models(found@)[k as int] == rule@);
                Ok(rule)
            },
            Err(e) => Err(e),
        }
    }
}

/// In a generated grammar every rule has on its left a nonterminal of the
/// nonterminal alphabet, and on its right either the empty production alone or
/// one to four symbols, a nonterminal first and terminals after it.
pub proof fn lemma_generated_rules_well_shaped(g: &Grammar)
    requires
        g.is_generated(),
    ensures
        forall|i: int|
            0 <= i < g.rules@.len() ==> {
                let rule = #[trigger] g.rules@[i];
                &&& rule.left.symbol_type == SymbolType::Nonterminal
                &&& g.nonterminals@.contains(rule.left)
                &&& is_well_shaped_right(rule.right@)
            },
{
    let t = g.terminals@;
    let nt = g.nonterminals@;
    assert forall|i: int| 0 <= i < g.rules@.len() implies {
        let rule = #[trigger] g.rules@[i];
        &&& rule.left.symbol_type == SymbolType::Nonterminal
        &&& nt.contains(rule.left)
        &&& is_well_shaped_right(rule.right@)
    } by {
        let rule = g.rules@[i];
        let a = choose|a: int| 0 <= a < nt.len() && nt[a] == rule.left;
        assert(nt[a].symbol_type == SymbolType::Nonterminal);
        let right = rule.right@;
        if right != seq![epsilon_symbol()] {
            let b = choose|b: int| 0 <= b < nt.len() && nt[b] == right[0];
            assert(nt[b].symbol_type == SymbolType::Nonterminal);
            assert forall|m: int| 1 <= m < right.len() implies (#[trigger] right[m]).symbol_type
                == SymbolType::Terminal by {
                assert(t.contains(right[m]));
                let c = choose|c: int| 0 <= c < t.len() && t[c] == right[m];
                assert(t[c].symbol_type == SymbolType::Terminal);
            }
        }
    }
}

/// A rule drawn for some character is a rule of the list.
proof fn lemma_rules_for_member(rules: Seq<RuleModel>, c: char, x: RuleModel)
    requires
        rules_for(rules, c).contains(x),
    ensures
        rules.contains(x),
    decreases rules.len(),
{
    if rules.len() > 0 {
        let found = rules_for(rules.drop_last(), c);
        if x == rules.last() {
            assert(rules[rules.len() - 1] == x);
        } else {
            if rules.last().0.liter == c {
                let i = choose|i: int| 0 <= i < found.push(rules.last()).len() && found.push(rules.last())[i] == x;
                assert(found[i] == x);
            }
            lemma_rules_for_member(rules.drop_last(), c, x);
            let j = choose|j: int| 0 <= j < rules.drop_last().len() && rules.drop_last()[j] == x;
            assert(rules[j] == x);
        }
    }
}

/// Substituting a plain sequence into a plain form gives a plain form.
proof fn lemma_substitute_plain(left: Symbol, right: Seq<Symbol>, form: Seq<Symbol>)
    requires
        is_plain_form(right),
        is_plain_form(form),
    ensures
        is_plain_form(substitute(left, right, form)),
    decreases form.len(),
{
    if form.len() > 0 {
        let prefix = form.drop_last();
        assert forall|i: int| 0 <= i < prefix.len() implies (#[trigger] prefix[i]).liter != ' '
            && prefix[i].liter != '>' by {
            assert(prefix[i] == form[i]);
        }
        lemma_substitute_plain(left, right, prefix);
        let head = substitute(left, right, prefix);
        let tail = if form.last() == left {
            right
        } else {
            seq![form.last()]
        };
        assert(form.last() == form[form.len() - 1]);
        let whole = head + tail;
        assert forall|i: int| 0 <= i < whole.len() implies (#[trigger] whole[i]).liter != ' '
            && whole[i].liter != '>' by {
            if i >= head.len() {
                assert(whole[i] == tail[i - head.len()]);
            } else {
                assert(whole[i] == head[i]);
            }
        }
    }
}

proof fn lemma_form_plain(g: &Grammar, forms: Seq<Seq<Symbol>>, steps: Seq<RuleModel>, k: int)
    requires
        g.has_plain_symbols(),
        g.is_derivation(forms, steps),
        0 <= k < forms.len(),
    ensures
        is_plain_form(forms[k]),
    decreases k,
{
    if k == 0 {
        assert(forms[0][0] == g.initial_state);
    } else {
        lemma_form_plain(g, forms, steps, k - 1);
        assert(g.step_is_drawn(steps, k));
        let c = if k == 1 {
            g.initial_state.liter
        } else {
            let j = choose|j: int|
                #[trigger] is_first_nonterminal(steps[k - 1].1, j) && rules_for(
                    g.models(),
                    steps[k - 1].1[j].liter,
                ).contains(steps[k]);
            steps[k - 1].1[j].liter
        };
        assert(rules_for(g.models(), c).contains(steps[k]));
        lemma_rules_for_member(g.models(), c, steps[k]);
        let i = choose|i: int| 0 <= i < g.models().len() && g.models()[i] == steps[k];
        assert(g.rules@[i]@ == steps[k]);
        assert(is_plain_form(g.rules@[i].right@));
        lemma_substitute_plain(steps[k].0, steps[k].1, forms[k - 1]);
    }
}

/// The trace of a derivation walk holds the separator once fewer than there
/// are forms, when neither the start symbol nor any right-hand side of the
/// grammar holds a symbol written with a space or `>`.
pub proof fn lemma_derivation_trace_separators(g: &Grammar, forms: Seq<Seq<Symbol>>, steps: Seq<RuleModel>)
    requires
        g.has_plain_symbols(),
        g.is_derivation(forms, steps),
    ensures
        count_separators(trace_text(forms)) == forms.len() - 1,
{
    assert forall|k: int| 0 <= k < forms.len() implies is_plain_form(#[trigger] forms[k]) by {
        lemma_form_plain(g, forms, steps, k);
    }
    lemma_trace_separators(forms);
}

/// A generated grammar writes its symbols with letters and the empty
/// production's character only, so none with a space or `>`.
pub proof fn lemma_generated_symbols_plain(g: &Grammar)
    requires
        g.is_generated(),
    ensures
        g.has_plain_symbols(),
{
    let nt = g.nonterminals@;
    let t = g.terminals@;
    assert(nt[0] == g.initial_state);
    assert forall|i: int| 0 <= i < g.rules@.len() implies is_plain_form((#[trigger] g.rules@[i]).right@) by {
        let right = g.rules@[i].right@;
        assert(is_generated_right(right, t, nt));
        if right != seq![epsilon_symbol()] {
            assert forall|m: int| 0 <= m < right.len() implies (#[trigger] right[m]).liter != ' '
                && right[m].liter != '>' by {
                if m == 0 {
                    let a = choose|a: int| 0 <= a < nt.len() && nt[a] == right[0];
                    assert(65 <= (nt[a].liter as u32) < 91);
                } else {
                    assert(t.contains(right[m]));
                    let b = choose|b: int| 0 <= b < t.len() && t[b] == right[m];
                    assert(97 <= (t[b].liter as u32) < 123);
                }
            }
        } else {
            assert(right[0] == epsilon_symbol());
        }
    }
}

} // verus!
