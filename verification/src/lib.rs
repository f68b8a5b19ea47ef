//! Oxidust core: the rule tables, disk-map planning, window-state codec and the
//! application state machine of the Oxidust system cleaner.

pub mod text;
pub mod window;
pub mod binary64;
pub mod color;
pub mod model;
pub mod catalog;
pub mod treemap;
pub mod state;
pub mod laws;
