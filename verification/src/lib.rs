//! Small verified building blocks over integers and sequences: absolute
//! value, Fibonacci numbers, linear scans, sorting and binary search.
//!
//! Every function states what it returns over the mathematical view of its
//! arguments, and the laws that tie the functions together are proved beside
//! them.

pub mod linear;
pub mod numbers;
pub mod order;
pub mod search;
pub mod sorting;

pub use linear::{find, find_max, maximum, maximum_is_unique};
pub use numbers::{abs, fib};
pub use search::binary_search;
pub use sorting::{sort, sorted};
