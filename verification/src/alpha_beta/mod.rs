//! The alpha-beta engine: a static evaluator, a lossy transposition cache,
//! and negamax search with iterative deepening under a wall-clock budget.
pub mod eval;
pub mod search;
pub mod transposition_table;

pub use eval::eval;
pub use search::negamax;
pub use search::search;
pub use transposition_table::TranspositionTable;
