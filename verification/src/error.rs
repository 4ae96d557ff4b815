//! The closed taxonomy of recoverable errors that repository, codec and
//! configuration operations surface to their callers.  Every variant carries
//! plain values; turning one into user-facing text or an exit code is the
//! caller's business.

use vstd::prelude::*;

verus! {

/// One error from the taxonomy.  Variants that reject a piece of text carry
/// the offending text.
#[derive(Debug, Clone, PartialEq)]
pub enum DictumError {
    /// The storage location has not been set up yet.
    NotInitialized,
    /// The storage location (carried) is already set up.
    AlreadyInitialized(String),
    /// No decision with the carried id exists.
    DecisionNotFound(String),
    /// The carried text is not a level name.
    InvalidLevel(String),
    /// The carried text is not a status name.
    InvalidStatus(String),
    /// The carried text is not a kind name.
    InvalidKind(String),
    /// The carried text is not a weight name.
    InvalidWeight(String),
    /// The carried text is not a link-kind name.
    InvalidLinkKind(String),
    /// A decision with the same id is already stored.
    DuplicateId,
    /// A link with the same (source, target, kind) triple is already stored.
    LinkAlreadyExists,
    /// No link with the given (source, target, kind) triple is stored.
    LinkNotFound,
    /// A link's two endpoints are the same decision.
    SelfLink,
    /// The underlying storage engine failed; the text is its report.
    StorageError(String),
    /// An interchange record is malformed; the text says where.
    SerializationError(String),
    /// The configuration document is malformed; the text says why.
    ConfigError(String),
}

} // verus!
