//! The error taxonomy of the library: one flat enum at the boundary, plus its
//! mathematical mirror used in contracts.

use crate::parser::components::ListType;
use vstd::prelude::*;

verus! {

/// Spec-level mirror of [`HeadScratcherError`]: names are character
/// sequences, so contracts can be stated over views alone.
pub enum ErrView {
    InvalidFile,
    UnsupportedVersion,
    UnknownListTag(u32),
    MalformedAbsentList,
    UnexpectedListTag { expected: ListType, got: ListType },
    UnknownType(u32),
    BadDimRef(u32),
    DuplicateName(Seq<char>),
    Utf8,
    UnknownVariable(Seq<char>),
    OutOfBounds { axis: usize, value: usize, bound: usize },
    MissingCoordinate(Seq<char>),
    UnexpectedEof,
    LayoutOverflow,
    Io(Seq<char>),
}

/// Everything that can go wrong while parsing a header or reading data.
#[derive(Debug, PartialEq, Clone)]
pub enum HeadScratcherError {
    /// The magic bytes are not `CDF`.
    InvalidFile,
    /// The version byte is neither 1 (classic) nor 2 (64-bit offset).
    UnsupportedVersion,
    /// A list slot opened with a tag that names no list kind.
    UnknownListTag(u32),
    /// A list slot opened with one zero word, but the second word was not zero.
    MalformedAbsentList,
    /// A list slot opened with a valid tag of the wrong kind.
    UnexpectedListTag { expected: ListType, got: ListType },
    /// An element type code outside 1..=6.
    UnknownType(u32),
    /// A variable references a dimension ID outside the dimension list.
    BadDimRef(u32),
    /// Two attributes or two variables in one list share a name.
    DuplicateName(String),
    /// A name or a text attribute is not valid UTF-8.
    Utf8,
    /// A read was requested for a variable the header does not hold.
    UnknownVariable(String),
    /// A coordinate of the wrong arity, or one outside its axis bound.
    OutOfBounds { axis: usize, value: usize, bound: usize },
    /// No dimension is named like the requested map axis.
    MissingCoordinate(&'static str),
    /// The source ended before the header or a data read completed.
    UnexpectedEof,
    /// A stride or offset does not fit the machine's address arithmetic.
    LayoutOverflow,
    /// An input/output failure reported by the code that owns the source.
    Io(String),
}

impl View for HeadScratcherError {
    type V = ErrView;

    open spec fn view(&self) -> ErrView {
        match self {
            HeadScratcherError::InvalidFile => ErrView::InvalidFile,
            HeadScratcherError::UnsupportedVersion => ErrView::UnsupportedVersion,
            HeadScratcherError::UnknownListTag(t) => ErrView::UnknownListTag(*t),
            HeadScratcherError::MalformedAbsentList => ErrView::MalformedAbsentList,
            HeadScratcherError::UnexpectedListTag { expected, got } => ErrView::UnexpectedListTag {
                expected: *expected,
                got: *got,
            },
            HeadScratcherError::UnknownType(t) => ErrView::UnknownType(*t),
            HeadScratcherError::BadDimRef(d) => ErrView::BadDimRef(*d),
            HeadScratcherError::DuplicateName(n) => ErrView::DuplicateName(n@),
            HeadScratcherError::Utf8 => ErrView::Utf8,
            HeadScratcherError::UnknownVariable(n) => ErrView::UnknownVariable(n@),
            HeadScratcherError::OutOfBounds { axis, value, bound } => ErrView::OutOfBounds {
                axis: *axis,
                value: *value,
                bound: *bound,
            },
            HeadScratcherError::MissingCoordinate(a) => ErrView::MissingCoordinate(a@),
            HeadScratcherError::UnexpectedEof => ErrView::UnexpectedEof,
            HeadScratcherError::LayoutOverflow => ErrView::LayoutOverflow,
            HeadScratcherError::Io(m) => ErrView::Io(m@),
        }
    }
}

/// Relates an executable result to a spec-level one: values agree through
/// their views, and so do errors.
pub open spec fn result_of<T: DeepView>(
    r: Result<T, HeadScratcherError>,
    s: Result<T::V, ErrView>,
) -> bool {
    match s {
        Result::Ok(v) => r matches Ok(x) && x.deep_view() == v,
        Result::Err(e) => r matches Err(f) && f@ == e,
    }
}

impl HeadScratcherError {
    /// A short fixed description of the error kind.
    pub fn describe(&self) -> (r: &'static str)
        ensures
            r@ == self.spec_describe(),
    {
        match self {
            HeadScratcherError::InvalidFile => "invalid file",
            HeadScratcherError::UnsupportedVersion => "unsupported version",
            HeadScratcherError::UnknownListTag(_) => "unknown list tag",
            HeadScratcherError::MalformedAbsentList => "malformed absent list",
            HeadScratcherError::UnexpectedListTag { .. } => "unexpected list tag",
            HeadScratcherError::UnknownType(_) => "unknown type",
            HeadScratcherError::BadDimRef(_) => "bad dimension reference",
            HeadScratcherError::DuplicateName(_) => "duplicate name",
            HeadScratcherError::Utf8 => "invalid utf-8",
            HeadScratcherError::UnknownVariable(_) => "unknown variable",
            HeadScratcherError::OutOfBounds { .. } => "coordinate out of bounds",
            HeadScratcherError::MissingCoordinate(_) => "missing coordinate",
            HeadScratcherError::UnexpectedEof => "unexpected end of file",
            HeadScratcherError::LayoutOverflow => "layout overflow",
            HeadScratcherError::Io(_) => "input/output error",
        }
    }

    /// What [`Self::describe`] returns, as a spec function.
    pub open spec fn spec_describe(&self) -> Seq<char> {
        match self {
            HeadScratcherError::InvalidFile => "invalid file"@,
            HeadScratcherError::UnsupportedVersion => "unsupported version"@,
            HeadScratcherError::UnknownListTag(_) => "unknown list tag"@,
            HeadScratcherError::MalformedAbsentList => "malformed absent list"@,
            HeadScratcherError::UnexpectedListTag { .. } => "unexpected list tag"@,
            HeadScratcherError::UnknownType(_) => "unknown type"@,
            HeadScratcherError::BadDimRef(_) => "bad dimension reference"@,
            HeadScratcherError::DuplicateName(_) => "duplicate name"@,
            HeadScratcherError::Utf8 => "invalid utf-8"@,
            HeadScratcherError::UnknownVariable(_) => "unknown variable"@,
            HeadScratcherError::OutOfBounds { .. } => "coordinate out of bounds"@,
            HeadScratcherError::MissingCoordinate(_) => "missing coordinate"@,
            HeadScratcherError::UnexpectedEof => "unexpected end of file"@,
            HeadScratcherError::LayoutOverflow => "layout overflow"@,
            HeadScratcherError::Io(_) => "input/output error"@,
        }
    }
}

} // verus!
