use grammar::{
    RuleDraw,
    is_empty_line, is_nonterminal, is_terminal, Chain, Grammar, Rule, State, Symbol, SymbolType,
    SymbolTypesError, Table,
};

fn nt(c: char) -> Symbol {
    Symbol::new(c, SymbolType::Nonterminal)
}

fn t(c: char) -> Symbol {
    Symbol::new(c, SymbolType::Terminal)
}

fn eps() -> Symbol {
    Symbol::new('ε', SymbolType::EmptyLine)
}

fn chain_of(symbols: &[Symbol]) -> Chain {
    let mut c = Chain::default();
    for s in symbols {
        c.add_symbol(s.clone());
    }
    c
}

fn rule(left: Symbol, right: &[Symbol]) -> Rule {
    Rule { left, right: chain_of(right) }
}

fn small_grammar() -> Grammar {
    Grammar {
        terminals: vec![t('x'), t('y')],
        nonterminals: vec![nt('S'), nt('A')],
        rules: vec![
            rule(nt('S'), &[nt('A'), t('x')]),
            rule(nt('A'), &[t('y')]),
            rule(nt('A'), &[eps()]),
        ],
        initial_state: nt('S'),
    }
}

fn count_arrows(s: &str) -> usize {
    s.matches(" -> ").count()
}

#[test]
fn generated_grammar_sizes_are_in_range() {
    for _ in 0..200 {
        let g = Grammar::generate_random();
        assert!(g.terminals.len() >= 5 && g.terminals.len() <= 9);
        assert!(g.nonterminals.len() >= 5 && g.nonterminals.len() <= 9);
        assert!(g.rules.len() >= 20 && g.rules.len() <= 24);
        assert!(g.initial_state == g.nonterminals[0]);
        for s in &g.terminals {
            assert!(is_terminal(s));
            assert!(s.liter >= 'a' && s.liter <= 'z');
        }
        for s in &g.nonterminals {
            assert!(is_nonterminal(s));
            assert!(s.liter >= 'A' && s.liter <= 'Z');
        }
    }
}

#[test]
fn generated_rules_have_nonterminal_left_from_alphabet() {
    for _ in 0..200 {
        let g = Grammar::generate_random();
        for r in &g.rules {
            assert!(is_nonterminal(&r.left));
            assert!(g.nonterminals.contains(&r.left));
        }
    }
}

#[test]
fn generated_rules_have_allowed_right_shape() {
    for _ in 0..200 {
        let g = Grammar::generate_random();
        for r in &g.rules {
            let right = &r.right.string;
            if right.len() == 1 && is_empty_line(&right[0]) {
                assert!(right[0] == eps());
                continue;
            }
            assert!(right.len() >= 1 && right.len() <= 4);
            assert!(is_nonterminal(&right[0]));
            assert!(g.nonterminals.contains(&right[0]));
            for s in &right[1..] {
                assert!(is_terminal(s));
                assert!(g.terminals.contains(s));
            }
        }
    }
}

#[test]
fn substitution_without_occurrence_is_identity() {
    let r = rule(nt('A'), &[t('q'), nt('B')]);
    let c = chain_of(&[nt('B'), t('a'), nt('C'), t('A')]);
    let out = r.gen_chain(c.clone());
    assert!(out == c);
    let empty = Chain::default();
    assert!(r.gen_chain(empty.clone()) == empty);
}

#[test]
fn substitution_rewrites_every_occurrence() {
    let r = rule(nt('A'), &[t('x')]);
    let out = r.gen_chain(chain_of(&[nt('A'), nt('B'), nt('A')]));
    assert!(out == chain_of(&[t('x'), nt('B'), t('x')]));
    assert_eq!(out.to_string(), "xBx");
}

#[test]
fn substitution_splices_longer_right_side() {
    let r = rule(nt('A'), &[nt('C'), t('b'), t('c')]);
    let out = r.gen_chain(chain_of(&[t('a'), nt('A'), t('d')]));
    assert!(out == chain_of(&[t('a'), nt('C'), t('b'), t('c'), t('d')]));
}

#[test]
fn substitution_compares_role_as_well_as_character() {
    let r = rule(nt('A'), &[t('x')]);
    let c = chain_of(&[t('A'), nt('A')]);
    assert!(r.gen_chain(c) == chain_of(&[t('A'), t('x')]));
}

#[test]
fn render_is_concatenation() {
    assert_eq!(chain_of(&[nt('A'), t('b'), nt('C')]).to_string(), "AbC");
    assert_eq!(chain_of(&[eps()]).to_string(), "ε");
    assert_eq!(Chain::default().to_string(), "");
    assert_eq!(Chain::new(nt('S')).to_string(), "S");
    assert_eq!(Chain::new_empty(eps()).to_string(), "ε");
}

#[test]
fn lookup_miss_is_right_error() {
    let g = small_grammar();
    assert!(matches!(g.get_nonterminal_rule(&nt('Q')), Err(SymbolTypesError::RightError)));
    assert!(matches!(g.get_nonterminal_rules(&nt('Q')), Err(SymbolTypesError::RightError)));
    assert!(matches!(
        g.get_random_nonterminal_rule(&nt('Q')),
        Err(SymbolTypesError::RightError)
    ));
}

#[test]
fn lookup_finds_first_and_all_matching_rules() {
    let g = small_grammar();
    let first = g.get_nonterminal_rule(&nt('A')).unwrap();
    assert!(first.right == chain_of(&[t('y')]));
    let all = g.get_nonterminal_rules(&nt('A')).unwrap();
    assert_eq!(all.len(), 2);
    assert!(all[0].right == chain_of(&[t('y')]));
    assert!(all[1].right == chain_of(&[eps()]));
    let s_rules = g.get_nonterminal_rules(&nt('S')).unwrap();
    assert_eq!(s_rules.len(), 1);
    assert!(s_rules[0].right == chain_of(&[nt('A'), t('x')]));
    for _ in 0..50 {
        let r = g.get_random_nonterminal_rule(&nt('A')).unwrap();
        assert!(r.left == nt('A'));
        assert!(r.right == chain_of(&[t('y')]) || r.right == chain_of(&[eps()]));
    }
}

#[test]
fn lookup_compares_character_only() {
    let g = small_grammar();
    let r = g.get_nonterminal_rule(&t('S')).unwrap();
    assert!(r.left == nt('S'));
}

#[test]
fn chain_leftmost_nonterminal() {
    let c = chain_of(&[t('a'), nt('B'), nt('C')]);
    match c.get_nonterminal() {
        Ok((s, i)) => {
            assert!(s == nt('B'));
            assert_eq!(i, 1);
        }
        Err(_) => panic!("expected a nonterminal"),
    }
    assert!(matches!(
        chain_of(&[t('a'), t('b')]).get_nonterminal(),
        Err(SymbolTypesError::NoSymbolError)
    ));
    assert!(matches!(Chain::default().get_nonterminal(), Err(SymbolTypesError::NoSymbolError)));
}

#[test]
fn rule_leftmost_nonterminal() {
    let r = rule(nt('S'), &[nt('A'), t('x')]);
    assert!(r.get_nonterminal().unwrap() == nt('A'));
    let e = rule(nt('A'), &[eps()]);
    assert!(matches!(e.get_nonterminal(), Err(SymbolTypesError::NoSymbolError)));
}

#[test]
fn alphabet_texts() {
    let g = small_grammar();
    assert_eq!(g.get_terminals(), "x y ");
    assert_eq!(g.get_nonterminals(), "S A ");
}

#[test]
fn derivation_end_to_end() {
    let g = small_grammar();
    let mut saw_y = false;
    let mut saw_eps = false;
    for _ in 0..100 {
        let (chains, rules, trace) = g.generate_line();
        assert_eq!(chains.len(), 3);
        assert_eq!(rules.len(), 3);
        assert_eq!(chains[0].to_string(), "S");
        assert_eq!(chains[1].to_string(), "Ax");
        assert!(rules[0].left == nt('S') && rules[0].right == chain_of(&[nt('S')]));
        assert!(rules[1].left == nt('S') && rules[1].right == chain_of(&[nt('A'), t('x')]));
        assert!(rules[2].left == nt('A'));
        let last = chains[2].to_string();
        if last == "yx" {
            saw_y = true;
            assert!(rules[2].right == chain_of(&[t('y')]));
            assert_eq!(trace, "S -> Ax -> yx");
        } else {
            saw_eps = true;
            assert_eq!(last, "εx");
            assert!(rules[2].right == chain_of(&[eps()]));
            assert_eq!(trace, "S -> Ax -> εx");
        }
    }
    assert!(saw_y && saw_eps);
}

#[test]
fn derivation_stops_when_start_has_no_rule() {
    let g = Grammar {
        terminals: vec![t('x')],
        nonterminals: vec![nt('S'), nt('A')],
        rules: vec![rule(nt('A'), &[t('x')])],
        initial_state: nt('S'),
    };
    let (chains, rules, trace) = g.generate_line();
    assert_eq!(chains.len(), 1);
    assert_eq!(rules.len(), 1);
    assert_eq!(trace, "S");
}

#[test]
fn derivation_stops_after_ten_steps() {
    let g = Grammar {
        terminals: vec![t('x')],
        nonterminals: vec![nt('S')],
        rules: vec![rule(nt('S'), &[nt('S'), t('x')])],
        initial_state: nt('S'),
    };
    let (chains, rules, trace) = g.generate_line();
    assert_eq!(chains.len(), 11);
    assert_eq!(rules.len(), 11);
    assert_eq!(chains[10].to_string(), "Sxxxxxxxxxx");
    assert_eq!(count_arrows(&trace), 10);
}

#[test]
fn derivation_lists_are_bounded_for_generated_grammars() {
    for _ in 0..200 {
        let g = Grammar::generate_random();
        let (chains, rules, trace) = g.generate_line();
        assert_eq!(chains.len(), rules.len());
        assert!(chains.len() >= 1 && chains.len() <= 11);
        assert_eq!(count_arrows(&trace), chains.len() - 1);
        assert!(chains[0] == Chain::new(g.initial_state.clone()));
        for k in 1..chains.len() {
            assert!(rules[k].gen_chain(chains[k - 1].clone()) == chains[k]);
        }
    }
}

#[test]
fn symbol_predicates() {
    assert!(is_terminal(&t('a')) && !is_nonterminal(&t('a')) && !is_empty_line(&t('a')));
    assert!(is_nonterminal(&nt('A')) && !is_terminal(&nt('A')));
    assert!(is_empty_line(&eps()) && !is_terminal(&eps()));
    assert!(Symbol::epsilon() == eps());
    assert!(nt('A') != t('A'));
}

#[test]
fn table_starts_with_one_state() {
    let table = Table::new(State::default());
    assert_eq!(table.table.len(), 1);
    assert!(table.table[0].input_row == Chain::default());
    assert!(Table::default().table.is_empty());
}

#[test]
fn grammar_from_draws_builds_exact_grammar() {
    let draws = vec![
        RuleDraw { left: 1, empty: false, lead: 0, tail: vec![1, 0] },
        RuleDraw { left: 0, empty: true, lead: 0, tail: vec![] },
        RuleDraw { left: 0, empty: false, lead: 1, tail: vec![] },
    ];
    let g = Grammar::grammar_from_draws(&vec![0, 25], &vec![18, 25], &draws);
    assert!(g.terminals == vec![t('a'), t('z')]);
    assert!(g.nonterminals == vec![nt('S'), nt('Z')]);
    assert!(g.initial_state == nt('S'));
    assert_eq!(g.rules.len(), 3);
    assert!(g.rules[0].left == nt('Z'));
    assert!(g.rules[0].right == chain_of(&[nt('S'), t('z'), t('a')]));
    assert!(g.rules[1].left == nt('S'));
    assert!(g.rules[1].right == chain_of(&[eps()]));
    assert!(g.rules[2].left == nt('S'));
    assert!(g.rules[2].right == chain_of(&[nt('Z')]));
    assert_eq!(g.get_terminals(), "a z ");
    assert_eq!(g.get_nonterminals(), "S Z ");
}

#[test]
fn generated_letters_cover_whole_alphabet() {
    let mut saw_z = false;
    let mut saw_upper_z = false;
    for _ in 0..2000 {
        let g = Grammar::generate_random();
        saw_z |= g.terminals.iter().any(|s| s.liter == 'z');
        saw_upper_z |= g.nonterminals.iter().any(|s| s.liter == 'Z');
        if saw_z && saw_upper_z {
            break;
        }
    }
    assert!(saw_z && saw_upper_z);
}

#[test]
fn separator_count_for_hand_built_grammar() {
    let g = Grammar {
        terminals: vec![t('x'), t('-')],
        nonterminals: vec![nt('S'), nt('A')],
        rules: vec![
            rule(nt('S'), &[nt('A'), t('-')]),
            rule(nt('A'), &[nt('S'), t('x')]),
        ],
        initial_state: nt('S'),
    };
    let (chains, _rules, trace) = g.generate_line();
    assert_eq!(chains.len(), 11);
    assert_eq!(count_arrows(&trace), 10);
    assert!(trace.starts_with("S -> A- -> Sx- -> "));
}

#[test]
fn one_element_lists() {
    let v: Vec<Symbol> = Vec::from(nt('S'));
    assert!(v == vec![nt('S')]);
    let c: Vec<Chain> = Vec::from(Chain::new(t('a')));
    assert_eq!(c.len(), 1);
    assert!(c[0] == Chain::new(t('a')));
    let s: Vec<State> = Vec::from(State::default());
    assert_eq!(s.len(), 1);
}
