use vstd::prelude::*;

pub mod duration;
pub mod fingerprint;
pub mod diff;
pub mod ignore;
pub mod index;
pub mod kv;
pub mod paths;
pub mod rewind;
pub mod save;
pub mod select;
pub mod store;
pub mod strs;

verus! {

/// The error taxonomy of the snapshot engine.  Selector-resolution errors
/// abort a command before any mutation begins; `IoFailure` is reserved for
/// the unverified shell around the library, which performs the actual disk
/// access.
#[derive(Clone, Copy, Debug, PartialEq, Eq, Structural)]
pub enum FttError {
    UnknownSnapshot,
    UnknownTag,
    AmbiguousSelector,
    OutOfRange,
    NoSnapshots,
    IoFailure,
}

} // verus!
