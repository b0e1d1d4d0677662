//! The typed failures of the library.
//!
//! A stale handle is an expected, recoverable condition, never a fault: each
//! level of the tree has its own target-not-found error carrying the names and
//! positions the handle last knew, so a caller can tell which handle went
//! stale. Index and naming violations get errors of their own, and the
//! format collaborator's failures are carried through unchanged.

use vstd::prelude::*;

verus! {

/// Why a handle operation failed.
///
/// The `Missing*` variants say that resolution scanned the whole parent
/// collection and the target's identity token was gone; the names and
/// positions are the handle's last-known ones, kept for diagnostics.
#[derive(Debug, Clone, PartialEq, Eq)]
pub enum ProxyError {
    /// No layer in the document carries the handle's token.
    MissingLayer { layer: String },
    /// No glyph in the named layer carries the handle's token.
    MissingGlyph { layer: String, glyph: String },
    /// No contour of the named glyph carries the handle's token.
    MissingContour { layer: String, glyph: String, contour: usize },
    /// No point of the contour carries the handle's token.
    MissingPoint { layer: String, glyph: String, contour: usize, point: usize },
    /// A normalized index fell outside `[0, len)`.
    IndexOutOfRange { index: i64, len: usize },
    /// A rename or insertion would give two siblings the same name.
    DuplicateName { name: String },
    /// A string is no identifier: over 100 characters, or one outside the
    /// printable ASCII range 0x20 to 0x7E.
    BadIdentifier,
}

/// The reason for a glyph-file parse failure, as the format collaborator
/// reports it.
#[derive(Debug, Clone, PartialEq, Eq)]
pub enum ErrorKind {
    UnsupportedGlifVersion,
    UnknownPointType,
    WrongFirstElement,
    MissingCloseTag,
    UnexpectedTag,
    BadHexValue,
    BadNumber,
    BadColor,
    BadAnchor,
    BadPoint,
    BadGuideline,
    BadComponent,
    BadImage,
    UnexpectedDuplicate,
    UnexpectedElement,
    UnexpectedEof,
}

/// The location of a glyph-file parse failure, and the reported reason.
#[derive(Debug, Clone, PartialEq, Eq)]
pub struct ParseGlifError {
    pub kind: ErrorKind,
    pub position: usize,
}

impl ParseGlifError {
    pub fn new(kind: ErrorKind, position: usize) -> (r: Self)
        ensures
            r == (ParseGlifError { kind, position }),
    {
        ParseGlifError { kind, position }
    }
}

impl ErrorKind {
    pub fn to_error(self, position: usize) -> (r: ParseGlifError)
        ensures
            r == (ParseGlifError { kind: self, position }),
    {
        ParseGlifError { kind: self, position }
    }
}

/// The XML reader's error type; carried through unchanged.
#[verifier::external_type_specification]
#[verifier::external_body]
pub struct ExXmlError(quick_xml::Error);

/// The property-list reader's error type; carried through unchanged.
#[verifier::external_type_specification]
#[verifier::external_body]
pub struct ExPlistError(plist::Error);

/// The standard I/O error type; carried through unchanged.
#[verifier::external_type_specification]
#[verifier::external_body]
pub struct ExIoError(std::io::Error);

/// Errors that occur while working with font objects.
#[derive(Debug)]
pub enum FontError {
    IoError(std::io::Error),
    ParseError(quick_xml::Error),
    ParseGlif(ParseGlifError),
    MissingFile(&'static str),
    PlistError(plist::Error),
    MissingGlyph,
    /// A wrapper for stashing errors for later use.
    SavedError(std::rc::Rc<FontError>),
}

impl core::convert::From<quick_xml::Error> for FontError {
    fn from(src: quick_xml::Error) -> (r: FontError) {
        FontError::ParseError(src)
    }
}

impl vstd::std_specs::convert::FromSpecImpl<quick_xml::Error> for FontError {
    open spec fn obeys_from_spec() -> bool {
        true
    }

    open spec fn from_spec(src: quick_xml::Error) -> FontError {
        FontError::ParseError(src)
    }
}

impl core::convert::From<plist::Error> for FontError {
    fn from(src: plist::Error) -> (r: FontError) {
        FontError::PlistError(src)
    }
}

impl vstd::std_specs::convert::FromSpecImpl<plist::Error> for FontError {
    open spec fn obeys_from_spec() -> bool {
        true
    }

    open spec fn from_spec(src: plist::Error) -> FontError {
        FontError::PlistError(src)
    }
}

impl core::convert::From<std::io::Error> for FontError {
    fn from(src: std::io::Error) -> (r: FontError) {
        FontError::IoError(src)
    }
}

impl vstd::std_specs::convert::FromSpecImpl<std::io::Error> for FontError {
    open spec fn obeys_from_spec() -> bool {
        true
    }

    open spec fn from_spec(src: std::io::Error) -> FontError {
        FontError::IoError(src)
    }
}

impl core::convert::From<ParseGlifError> for FontError {
    fn from(src: ParseGlifError) -> (r: FontError) {
        FontError::ParseGlif(src)
    }
}

impl vstd::std_specs::convert::FromSpecImpl<ParseGlifError> for FontError {
    open spec fn obeys_from_spec() -> bool {
        true
    }

    open spec fn from_spec(src: ParseGlifError) -> FontError {
        FontError::ParseGlif(src)
    }
}

} // verus!
