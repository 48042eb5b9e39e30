use vstd::prelude::*;

verus! {

/// Why a structurally required part of a container could not be decoded.
#[derive(Debug, Clone, Copy, PartialEq, Eq, Structural)]
pub enum EbmlDefect {
    /// A variable-length integer starts with a zero byte.
    InvalidVInt,
    /// The EBML header holds no DocType element.
    MissingDocType,
    /// A child element runs past the end of its parent.
    ChildPastParent,
}

/// The errors of WebM parsing.
#[derive(Debug, Clone, Copy, PartialEq, Eq, Structural)]
pub enum ParseWebmFailed {
    /// The buffer must grow by at least this many bytes before the step can go on.
    Need(usize),
    /// The input is not an EBML document, or its first element is not a Segment.
    NotWebmFile,
    /// A required element violates the format.
    InvalidWebmFile(EbmlDefect),
    /// One child of a SeekHead is not a usable Seek entry.
    InvalidSeekEntry,
}

} // verus!
