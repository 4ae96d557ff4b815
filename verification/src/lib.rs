//! A small library for keeping a durable graph of decisions: timestamped,
//! classified statements with lifecycle status, free-text labels, and typed
//! directed links between them.  The library owns the data model, the
//! deterministic identifier scheme, the repository operations over an
//! in-memory store, the schema-upgrade rules, the hierarchy rendering, and a
//! line-oriented JSON interchange codec.  Callers supply timestamps and do
//! the actual file and database plumbing.

pub mod codec;
pub mod codec_laws;
pub mod config;
pub mod context;
pub mod decisions;
pub mod decode;
pub mod error;
pub mod format;
pub mod id;
pub mod labels;
pub mod laws;
pub mod links;
pub mod model;
pub mod ops;
pub mod schema;
pub mod store;
pub mod strutil;
pub mod textfmt;
pub mod tree;

pub use error::DictumError;
pub use model::{Decision, Kind, Level, Link, LinkKind, Status, Weight};
