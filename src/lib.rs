//! Context-free grammars: a random generator of small grammars and a bounded
//! random derivation walk over their sentential forms.

mod draw;
mod text;

pub mod automaton;
pub mod chain;
pub mod grammar;
pub mod rule;
pub mod symbol;

pub use automaton::{State, Table};
pub use chain::Chain;
pub use grammar::{Grammar, RuleDraw};
pub use rule::{ExRule, Rule};
pub use symbol::{is_empty_line, is_nonterminal, is_terminal, Symbol, SymbolType, SymbolTypesError};
