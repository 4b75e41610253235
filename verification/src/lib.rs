//! Verified core of a keyboard-driven file and application launcher.
//!
//! The crate covers the launcher's search-and-navigation engine: a fuzzy
//! scorer, a multi-source search aggregator, argument builders and output
//! parsers for external search tools, a back/forward navigation history,
//! a live directory filter, and a tab-completion cycler.  Rendering,
//! process spawning and persistence live outside this crate; they exchange
//! plain values with the functions here.

pub mod aggregate;
pub mod command;
pub mod complete;
pub mod filter;
pub mod fuzzy;
pub mod invoker;
pub mod listing;
pub mod mode;
pub mod model;
pub mod nav;
pub mod search;
pub mod search_config;
pub mod text;
