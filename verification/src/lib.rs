//! Route planning over a map of star systems joined by jump gates.
//!
//! The map is an undirected, unweighted graph. A route starts at one system,
//! visits every system that can be reached from it, always moving on to the
//! nearest system not yet seen, and comes back to where it began.

pub mod db;
pub mod github;
pub mod graph;
pub mod names;
pub mod path;
pub mod reach;

pub use db::{find_system, Jump, System};
pub use github::{ensure_c3e6_dataset, ensure_c3e6_dataset_default};
pub use graph::{build_graph, StarGraph};
pub use path::optimal_route;
