//! Verified core of a CSV table viewer.
//!
//! The library holds an in-memory table (a header row plus data rows of cell
//! strings) together with the view state of a browsing session: current page,
//! search query and results, a single-row selection, and a per-column
//! visibility mask. Every function that derives a view or reacts to a user
//! event is specified and verified; CSV encoding and decoding are delegated
//! to the `csv` crate behind trusted declarations.

pub mod codec;
pub mod search;
pub mod text;
pub mod viewer;
