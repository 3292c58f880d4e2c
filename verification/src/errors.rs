//! The failure taxonomy shared by the scheduling engine, the codec and the
//! note store. Every operation reports a typed failure instead of aborting;
//! `message` renders its human-readable text, naming the offending identity
//! or path.
use vstd::prelude::*;

verus! {

/// A typed failure of a store, codec, confinement or scheduling operation.
#[derive(Debug)]
pub enum Error {
    /// The identity was absent from the store on a read or delete.
    NotFound { identity: String },
    /// Path confinement failed: the path does not lie under the root.
    OutsideRoot { path: String, root: String },
    /// Path confinement produced no usable identity.
    InvalidIdentity { path: String },
    /// Stored state was malformed or over the size cap.
    SerializationFailure { detail: String },
    /// A serialized scheduler carried a tag no known algorithm answers to.
    UnknownSchedulerType { tag: String },
    /// Day arithmetic left the representable timestamp range.
    ArithmeticOverflow,
    /// An underlying I/O or connection failure, wrapped with context.
    StorageIOFailure { detail: String },
}

/// The rendered message of an error, as a view-level sequence.
pub open spec fn message_chars(e: Error) -> Seq<char> {
    match e {
        Error::NotFound { identity } => "Failed to find note: "@ + identity@,
        Error::OutsideRoot { path, root } => "Path is outside the configured root: "@ + path@
            + " (root: "@ + root@ + ")"@,
        Error::InvalidIdentity { path } => "Path yields no usable identity: "@ + path@,
        Error::SerializationFailure { detail } => "Failed to read or write serialized note: "@
            + detail@,
        Error::UnknownSchedulerType { tag } => "Unknown scheduler type: "@ + tag@,
        Error::ArithmeticOverflow => "Date computation out of representable range"@,
        Error::StorageIOFailure { detail } => "Storage failure: "@ + detail@,
    }
}

impl Error {
    /// The human-readable description of this failure, naming the offending
    /// identity or path.
    pub fn message(&self) -> (r: String)
        ensures
            r@ == message_chars(*self),
    {
        match self {
            Error::NotFound { identity } => {
                let mut s = String::from_str("Failed to find note: ");
                s.append(identity.as_str());
                s
            },
            Error::OutsideRoot { path, root } => {
                let mut s = String::from_str("Path is outside the configured root: ");
                s.append(path.as_str());
                s.append(" (root: ");
                s.append(root.as_str());
                s.append(")");
                s
            },
            Error::InvalidIdentity { path } => {
                let mut s = String::from_str("Path yields no usable identity: ");
                s.append(path.as_str());
                s
            },
            Error::SerializationFailure { detail } => {
                let mut s = String::from_str("Failed to read or write serialized note: ");
                s.append(detail.as_str());
                s
            },
            Error::UnknownSchedulerType { tag } => {
                let mut s = String::from_str("Unknown scheduler type: ");
                s.append(tag.as_str());
                s
            },
            Error::ArithmeticOverflow => String::from_str(
                "Date computation out of representable range",
            ),
            Error::StorageIOFailure { detail } => {
                let mut s = String::from_str("Storage failure: ");
                s.append(detail.as_str());
                s
            },
        }
    }
}

} // verus!
