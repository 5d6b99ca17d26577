//! Monte Carlo tree search: an incrementally grown game tree with random
//! rollouts, upper-confidence selection and backpropagated win statistics.
pub mod tree_node;
pub mod win_stats;

pub use tree_node::TreeNode;
pub use win_stats::WinStats;
