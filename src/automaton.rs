use vstd::prelude::*;

use crate::chain::Chain;

verus! {

/// One configuration of a pushdown automaton: the input still to read and the
/// stack.
#[derive(Clone, Debug)]
pub struct State {
    pub input_row: Chain,
    pub magazine_state: Chain,
}

impl Default for State {
    fn default() -> (r: Self)
        ensures
            r.input_row@ == Seq::<crate::symbol::Symbol>::empty(),
            r.magazine_state@ == Seq::<crate::symbol::Symbol>::empty(),
    {
        Self { input_row: Chain::default(), magazine_state: Chain::default() }
    }
}

/// The one-element list; its contract is the `ensures` of `from`, as no
/// `Vec` value can be written in a specification.
impl From<State> for Vec<State> {
    fn from(row: State) -> (r: Vec<State>)
        ensures
            r@ == seq![row],
    {
        let mut v = Vec::new();
        v.push(row);
        assert(v@ =~= seq![row]);
        v
    }
}

impl vstd::std_specs::convert::FromSpecImpl<State> for Vec<State> {
    open spec fn obeys_from_spec() -> bool {
        false
    }

    open spec fn from_spec(row: State) -> Vec<State> {
        vstd::pervasive::arbitrary()
    }
}

/// A table of automaton configurations, in order.
#[derive(Clone, Debug)]
pub struct Table {
    pub table: Vec<State>,
}

impl Default for Table {
    fn default() -> (r: Self)
        ensures
            r.table@.len() == 0,
    {
        Self { table: Vec::new() }
    }
}

impl Table {
    /// The table that holds `start` alone.
    pub fn new(start: State) -> (r: Self)
        ensures
            r.table@ == seq![start],
    {
        Self { table: Vec::from(start) }
    }
}

} // verus!
