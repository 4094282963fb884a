//! The error taxonomy: structured values that tell transport failures,
//! malformed tags, invalid UTF-8, oversized lengths and shape mismatches
//! apart.

use vstd::prelude::*;

use crate::tag::Tag;

verus! {

/// Error of a transport that never fails.  The library creates no value of
/// this type, and its field keeps anyone else from creating one.
#[derive(Debug, Clone, Copy, PartialEq, Eq, Structural)]
pub struct NoRWError {
    never: bool,
}

/// A fixed-capacity buffer or an in-memory source was exhausted before the
/// operation finished.
#[derive(Debug, Clone, Copy, PartialEq, Eq, Hash, Structural)]
pub struct EndOfBuff;

/// A byte that should have introduced a value was no tag at all.
#[derive(Debug, Clone, Copy, PartialEq, Eq, Hash, Structural)]
pub enum TagParsingError {
    /// The byte lies outside the tag table; it carries the offending byte.
    InvalidTag(u8),
}

/// A byte was a valid tag, but not one of the tags legal at this decode
/// site.  It carries the tag that was found and the tags that would have
/// been accepted.
#[derive(Debug, Clone, PartialEq, Eq)]
pub struct UnexpectedTag {
    /// The tags that the decode site would have accepted.
    pub expected: Vec<Tag>,
    /// The tag that was actually read.
    pub got: Tag,
}

impl UnexpectedTag {
    /// Builds the error from the acceptable set and the offending tag.
    pub fn unexpected(expected: Vec<Tag>, got: Tag) -> (r: UnexpectedTag)
        ensures
            r.expected == expected,
            r.got == got,
    {
        UnexpectedTag { expected, got }
    }
}

/// What can go wrong while serializing.
#[derive(Debug, Clone, PartialEq, Eq)]
pub enum SerError<We> {
    /// The sink rejected a write; carries the sink's own error.
    WriteError(We),
    /// A caller-supplied message.
    Custom(String),
}

/// What can go wrong while deserializing.
#[derive(Debug, Clone, PartialEq, Eq)]
pub enum DeError<Re> {
    /// The source failed or ran out of bytes mid-value; carries the
    /// source's own error.
    ReaderError(Re),
    /// A byte outside the tag table appeared where a tag was expected.
    TagParsingError(TagParsingError),
    /// Length- or marker-delimited string bytes were not valid UTF-8.
    Utf8Error,
    /// A decoded length does not fit the host's size type; carries the
    /// length read from the wire.
    InvalidLen(u64),
    /// A valid tag appeared at a site where it is not legal.
    UnexpectedTag(UnexpectedTag),
    /// A caller-supplied message.
    Custom(String),
}

} // verus!
