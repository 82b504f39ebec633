use vstd::prelude::*;

verus! {

/// The closed set of failures the library and its callers speak of.
///
/// `NotFound` carries the id a command referenced but no stored task has.
/// `ParseFailure` means the persisted bytes are not a well-formed task
/// document. `InvalidArgument` is the kind behind every usage hint: a
/// missing description, a missing or non-numeric id, a refused
/// confirmation. `IoFailure` carries the cause text of a failed read or
/// write of the store file; it belongs to the unverified shell around the
/// library, which alone touches the file system.
#[derive(Debug, Clone, PartialEq, Eq)]
pub enum TodoError {
    IoFailure(String),
    ParseFailure,
    NotFound(u32),
    InvalidArgument,
}

} // verus!
