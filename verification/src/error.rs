//! The errors of this library, and the message of each.
//!
//! Paths and the causes that the operating system reported are held as text.
use crate::text::{decimal_string, decimal_text, join_texts, join_with, texts};
use vstd::prelude::*;
use vstd::string::*;

verus! {

/// The result `r` is what `model` says: the same outcome, with the model of
/// the value or of the error.
pub open spec fn comes_to<T: View, E: View>(r: Result<T, E>, model: Result<T::V, E::V>) -> bool {
    match r {
        Ok(value) => model == Ok::<T::V, E::V>(value@),
        Err(error) => model == Err::<T::V, E::V>(error@),
    }
}

/// What the schema asks for at some place of a document.
#[derive(Clone, Copy, Debug, PartialEq, Eq)]
pub enum Expected {
    /// A JSON object.
    Object,
    /// A JSON string.
    Text,
    /// A JSON array of strings.
    TextList,
    /// A field that has to be there.
    Field,
}

impl Expected {
    /// The words for what was expected.
    pub open spec fn phrase(self) -> Seq<char> {
        match self {
            Expected::Object => "expected a map"@,
            Expected::Text => "expected a string"@,
            Expected::TextList => "expected a sequence of strings"@,
            Expected::Field => "missing field"@,
        }
    }

    /// The words for what was expected.
    pub fn describe(&self) -> (r: &'static str)
        ensures
            r@ == self.phrase(),
    {
        match self {
            Expected::Object => "expected a map",
            Expected::Text => "expected a string",
            Expected::TextList => "expected a sequence of strings",
            Expected::Field => "missing field",
        }
    }
}

/// A place in a document where it does not follow the schema of its version:
/// the keys that lead there from the top of the document, and what the
/// schema asks for there.
#[derive(Clone, Debug, PartialEq, Eq)]
pub struct Mismatch {
    pub path: Vec<String>,
    pub expected: Expected,
}

/// The model of a [`Mismatch`].
pub struct MismatchView {
    pub path: Seq<Seq<char>>,
    pub expected: Expected,
}

impl View for Mismatch {
    type V = MismatchView;

    open spec fn view(&self) -> MismatchView {
        MismatchView { path: texts(self.path@), expected: self.expected }
    }
}

impl Mismatch {
    /// The message: the path, its keys joined by ` > `, and what was expected.
    pub open spec fn message_text(&self) -> Seq<char> {
        if self.path@.len() == 0 {
            "invalid bootspec document: "@ + self.expected.phrase()
        } else {
            "invalid bootspec document at `"@ + join_with(texts(self.path@), " > "@) + "`: "@
                + self.expected.phrase()
        }
    }

    /// The message of the mismatch.
    pub fn message(&self) -> (r: String)
        ensures
            r@ == self.message_text(),
    {
        if self.path.len() == 0 {
            let mut s = String::from_str("invalid bootspec document: ");
            s.append(self.expected.describe());
            s
        } else {
            let mut s = String::from_str("invalid bootspec document at `");
            let joined = join_texts(&self.path, " > ");
            s.append(joined.as_str());
            s.append("`: ");
            s.append(self.expected.describe());
            s
        }
    }
}

/// Why a document could not be read.
#[derive(Clone, Debug, PartialEq, Eq)]
pub enum ParseError {
    /// The text is not JSON; the message is the JSON reader's.
    Syntax(String),
    /// The document carries no version tag that can be read.
    MissingVersion,
    /// The document is tagged with a version that is not supported.
    UnsupportedVersion(u64),
    /// The document is tagged with a supported version and does not follow
    /// that version's schema.
    SchemaMismatch(Mismatch),
    /// The extension of this name is `null`.
    NullExtension(String),
}

/// The model of a [`ParseError`].
pub enum ParseErrorView {
    Syntax(Seq<char>),
    MissingVersion,
    UnsupportedVersion(u64),
    SchemaMismatch(MismatchView),
    NullExtension(Seq<char>),
}

impl View for ParseError {
    type V = ParseErrorView;

    open spec fn view(&self) -> ParseErrorView {
        match self {
            ParseError::Syntax(m) => ParseErrorView::Syntax(m@),
            ParseError::MissingVersion => ParseErrorView::MissingVersion,
            ParseError::UnsupportedVersion(v) => ParseErrorView::UnsupportedVersion(*v),
            ParseError::SchemaMismatch(m) => ParseErrorView::SchemaMismatch(m@),
            ParseError::NullExtension(k) => ParseErrorView::NullExtension(k@),
        }
    }
}

impl ParseError {
    /// The message of the error.
    pub open spec fn message_text(&self) -> Seq<char> {
        match self {
            ParseError::Syntax(m) => "invalid JSON: "@ + m@,
            ParseError::MissingVersion => "missing or invalid bootspec version"@,
            ParseError::UnsupportedVersion(v) => "unsupported bootspec version "@ + decimal_text(
                *v as nat,
            ) + ": data did not match any variant of the supported schemas"@,
            ParseError::SchemaMismatch(m) => m.message_text(),
            ParseError::NullExtension(k) => k@ + " was null, but null extensions are not allowed"@,
        }
    }

    /// The message of the error.
    pub fn message(&self) -> (r: String)
        ensures
            r@ == self.message_text(),
    {
        match self {
            ParseError::Syntax(m) => {
                let mut s = String::from_str("invalid JSON: ");
                s.append(m.as_str());
                s
            },
            ParseError::MissingVersion => String::from_str("missing or invalid bootspec version"),
            ParseError::UnsupportedVersion(v) => {
                let mut s = String::from_str("unsupported bootspec version ");
                let n = decimal_string(*v);
                s.append(n.as_str());
                s.append(": data did not match any variant of the supported schemas");
                s
            },
            ParseError::SchemaMismatch(m) => m.message(),
            ParseError::NullExtension(k) => {
                let mut s = String::from_str(k.as_str());
                s.append(" was null, but null extensions are not allowed");
                s
            },
        }
    }
}

/// Why a generation could not be synthesized from a configuration root.
#[derive(Clone, Debug, PartialEq, Eq)]
pub enum SynthesizeError {
    /// The schema version asked for is not one that can be synthesized.
    UnsupportedVersion(u64),
    /// The path could not be made canonical.
    Canonicalize { path: String, err: String },
    /// The path could not be read.
    ReadPath { path: String, err: String },
    /// The directory of kernel modules holds no directory named by a kernel
    /// version.
    MissingKernelVersionDir(String),
}

/// The model of a [`SynthesizeError`].
pub enum SynthesizeErrorView {
    UnsupportedVersion(u64),
    Canonicalize { path: Seq<char>, err: Seq<char> },
    ReadPath { path: Seq<char>, err: Seq<char> },
    MissingKernelVersionDir(Seq<char>),
}

impl View for SynthesizeError {
    type V = SynthesizeErrorView;

    open spec fn view(&self) -> SynthesizeErrorView {
        match self {
            SynthesizeError::UnsupportedVersion(v) => SynthesizeErrorView::UnsupportedVersion(*v),
            SynthesizeError::Canonicalize { path, err } => SynthesizeErrorView::Canonicalize {
                path: path@,
                err: err@,
            },
            SynthesizeError::ReadPath { path, err } => SynthesizeErrorView::ReadPath {
                path: path@,
                err: err@,
            },
            SynthesizeError::MissingKernelVersionDir(path) => SynthesizeErrorView::MissingKernelVersionDir(
                path@,
            ),
        }
    }
}

impl SynthesizeError {
    /// The message of the error.
    pub open spec fn message_text(&self) -> Seq<char> {
        match self {
            SynthesizeError::UnsupportedVersion(v) => "unsupported schema version "@ + decimal_text(
                *v as nat,
            ),
            SynthesizeError::Canonicalize { path, err } => "failed to canonicalize "@ + path@ + ": "@
                + err@,
            SynthesizeError::ReadPath { path, err } => "failed to read "@ + path@ + ": "@ + err@,
            SynthesizeError::MissingKernelVersionDir(path) => "could not find kernel version dir in "@
                + path@,
        }
    }

    /// The message of the error.
    pub fn message(&self) -> (r: String)
        ensures
            r@ == self.message_text(),
    {
        match self {
            SynthesizeError::UnsupportedVersion(v) => {
                let mut s = String::from_str("unsupported schema version ");
                let n = decimal_string(*v);
                s.append(n.as_str());
                s
            },
            SynthesizeError::Canonicalize { path, err } => {
                let mut s = String::from_str("failed to canonicalize ");
                s.append(path.as_str());
                s.append(": ");
                s.append(err.as_str());
                s
            },
            SynthesizeError::ReadPath { path, err } => {
                let mut s = String::from_str("failed to read ");
                s.append(path.as_str());
                s.append(": ");
                s.append(err.as_str());
                s
            },
            SynthesizeError::MissingKernelVersionDir(path) => {
                let mut s = String::from_str("could not find kernel version dir in ");
                s.append(path.as_str());
                s
            },
        }
    }
}

/// Any error of this library.
#[derive(Clone, Debug, PartialEq, Eq)]
pub enum BootspecError {
    /// A generation could not be synthesized.
    Synthesize(SynthesizeError),
    /// A document could not be read.
    Parse(ParseError),
    /// Reading or writing failed; the text is the cause as it was reported.
    Io(String),
    /// The path has no file name.
    InvalidFileName(String),
    /// The path is not UTF-8.
    InvalidUtf8(String),
}

/// The model of a [`BootspecError`].
pub enum BootspecErrorView {
    Synthesize(SynthesizeErrorView),
    Parse(ParseErrorView),
    Io(Seq<char>),
    InvalidFileName(Seq<char>),
    InvalidUtf8(Seq<char>),
}

impl View for BootspecError {
    type V = BootspecErrorView;

    open spec fn view(&self) -> BootspecErrorView {
        match self {
            BootspecError::Synthesize(e) => BootspecErrorView::Synthesize(e@),
            BootspecError::Parse(e) => BootspecErrorView::Parse(e@),
            BootspecError::Io(cause) => BootspecErrorView::Io(cause@),
            BootspecError::InvalidFileName(path) => BootspecErrorView::InvalidFileName(path@),
            BootspecError::InvalidUtf8(path) => BootspecErrorView::InvalidUtf8(path@),
        }
    }
}

impl BootspecError {
    /// The message of the error.
    pub open spec fn message_text(&self) -> Seq<char> {
        match self {
            BootspecError::Synthesize(e) => "failed to synthesize: "@ + e.message_text(),
            BootspecError::Parse(e) => e.message_text(),
            BootspecError::Io(cause) => cause@,
            BootspecError::InvalidFileName(path) => path@ + " had an invalid file name"@,
            BootspecError::InvalidUtf8(path) => path@ + " contained invalid UTF8"@,
        }
    }

    /// The message of the error.
    pub fn message(&self) -> (r: String)
        ensures
            r@ == self.message_text(),
    {
        match self {
            BootspecError::Synthesize(e) => {
                let mut s = String::from_str("failed to synthesize: ");
                let m = e.message();
                s.append(m.as_str());
                s
            },
            BootspecError::Parse(e) => e.message(),
            BootspecError::Io(cause) => String::from_str(cause.as_str()),
            BootspecError::InvalidFileName(path) => {
                let mut s = String::from_str(path.as_str());
                s.append(" had an invalid file name");
                s
            },
            BootspecError::InvalidUtf8(path) => {
                let mut s = String::from_str(path.as_str());
                s.append(" contained invalid UTF8");
                s
            },
        }
    }
}

} // verus!
