//! Localization resource files treated as relational tables: codecs for
//! json, resx and restext, and a query engine over the canonical operations.
pub mod resource;
pub mod text;
pub mod ops;
pub mod query;
pub mod error;
pub mod sql;
pub mod backend;
pub mod engine;
pub mod revision;
pub mod restext;
pub mod utils;
pub mod file;
pub mod resx;
pub mod json;
pub mod sync;

pub use resource::{Resource, Triple};
