//! Queries over the components stored in a world.

pub mod iter;
pub mod filter;

pub use iter::Query;
pub use filter::{With, Without, Changed, Added};
