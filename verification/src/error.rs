//! What can go wrong when a version or a range is read from text.

use vstd::prelude::*;
use vstd::slice::slice_subrange;
use vstd::string::StringExecFns;
use vstd::utf8::encode_utf8;
use crate::text::{decimal_text, push_decimal};

verus! {

/// The parts of the grammar that an error can name.
#[derive(Clone, Copy, Debug, PartialEq, Eq, Structural)]
pub enum Component {
    /// The dot-separated numbers at the start of a version.
    VersionCore,
    /// The identifiers after `-`.
    PreRelease,
    /// The identifiers after `+`.
    Build,
    /// The `]` or `)` that ends a bracket range.
    ClosingBracket,
    /// An interval whose lower edge lies above its upper edge.
    Interval,
}

/// The kinds of error.
#[derive(Clone, Copy, Debug, PartialEq, Eq, Structural)]
pub enum SemverErrorKind {
    /// The text is longer than a version may be.
    MaxLengthError,
    /// The text ended where more was expected.
    IncompleteInput,
    /// A run of digits denotes a number too large for 64 bits.
    IntegerParseError,
    /// A numeric component is larger than the largest one allowed.
    IntegerTooLarge(u64),
    /// A part of the grammar was expected and not found.
    InvalidComponent(Component),
    /// The text goes on after what was read.
    Other,
}

/// An error, with the text that was read and the offset at which reading
/// stopped.
#[derive(Debug)]
pub struct SemverError {
    input: String,
    offset: usize,
    kind: SemverErrorKind,
}

/// What a [`SemverError`] stands for in specifications.
pub struct SemverErrorView {
    pub input: Seq<char>,
    pub offset: usize,
    pub kind: SemverErrorKind,
}

impl View for SemverError {
    type V = SemverErrorView;

    closed spec fn view(&self) -> SemverErrorView {
        SemverErrorView { input: self.input@, offset: self.offset, kind: self.kind }
    }
}

/// The name of a part of the grammar, as error messages give it.
pub open spec fn component_text(component: Component) -> Seq<char> {
    match component {
        Component::VersionCore => "version core"@,
        Component::PreRelease => "pre-release"@,
        Component::Build => "build"@,
        Component::ClosingBracket => "closing bracket"@,
        Component::Interval => "interval"@,
    }
}

/// The sentence that describes a kind of error.
pub open spec fn kind_text(kind: SemverErrorKind) -> Seq<char> {
    match kind {
        SemverErrorKind::MaxLengthError => "Semver string can't be longer than 256 characters."@,
        SemverErrorKind::IncompleteInput => "Incomplete input to semver parser."@,
        SemverErrorKind::IntegerParseError =>
            "Failed to parse an integer component of a semver string: number too large to fit in target type"@,
        SemverErrorKind::IntegerTooLarge(n) =>
            "Integer component of semver string is larger than MAX_SAFE_INTEGER: "@
                + decimal_text(n as nat),
        SemverErrorKind::InvalidComponent(component) => "Failed to parse "@ + component_text(
            component,
        ) + " component of semver string."@,
        SemverErrorKind::Other => "An unspecified error occurred."@,
    }
}

/// The message of an error of the given kind.
pub open spec fn error_text(kind: SemverErrorKind) -> Seq<char> {
    "Error parsing semver string. "@ + kind_text(kind)
}

/// How often `needle` occurs in `bytes`.
pub open spec fn occurrences(bytes: Seq<u8>, needle: u8) -> nat
    decreases bytes.len(),
{
    if bytes.len() == 0 {
        0
    } else {
        occurrences(bytes.drop_last(), needle) + if bytes.last() == needle {
            1nat
        } else {
            0nat
        }
    }
}

/// The index at which the line that holds `end` starts: just after the
/// last newline before `end`, or 0.
pub open spec fn line_start(bytes: Seq<u8>, end: int) -> int
    decreases end,
{
    if end <= 0 {
        0
    } else if bytes[end - 1] == 10u8 {
        end
    } else {
        line_start(bytes, end - 1)
    }
}

/// The line and the column of the byte at `offset`, both counted from 0.
/// An offset beyond the end counts as the end.
pub open spec fn location_of(bytes: Seq<u8>, offset: int) -> (int, int) {
    let end = if offset <= bytes.len() {
        offset
    } else {
        bytes.len() as int
    };
    (occurrences(bytes.subrange(0, end), 10u8) as int, end - line_start(bytes, end))
}

/// Calls `bytecount::count`, which counts the bytes of `haystack` that
/// equal `needle`.
#[verifier::external_body]
fn count_bytes(haystack: &[u8], needle: u8) -> (count: usize)
    ensures
        count == occurrences(haystack@, needle),
{
    bytecount::count(haystack, needle)
}

impl Component {
    /// The name of the part, as error messages give it.
    pub fn name(self) -> (name: &'static str)
        ensures
            name@ == component_text(self),
    {
        match self {
            Component::VersionCore => "version core",
            Component::PreRelease => "pre-release",
            Component::Build => "build",
            Component::ClosingBracket => "closing bracket",
            Component::Interval => "interval",
        }
    }
}

impl SemverErrorKind {
    /// The sentence that describes the kind.
    pub fn to_string(&self) -> (text: String)
        ensures
            text@ == kind_text(*self),
    {
        match self {
            SemverErrorKind::MaxLengthError => String::from_str(
                "Semver string can't be longer than 256 characters.",
            ),
            SemverErrorKind::IncompleteInput => String::from_str(
                "Incomplete input to semver parser.",
            ),
            SemverErrorKind::IntegerParseError => String::from_str(
                "Failed to parse an integer component of a semver string: number too large to fit in target type",
            ),
            SemverErrorKind::IntegerTooLarge(n) => {
                let mut text = String::from_str(
                    "Integer component of semver string is larger than MAX_SAFE_INTEGER: ",
                );
                push_decimal(&mut text, *n);
                text
            },
            SemverErrorKind::InvalidComponent(component) => {
                let mut text = String::from_str("Failed to parse ");
                text.append(component.name());
                text.append(" component of semver string.");
                text
            },
            SemverErrorKind::Other => String::from_str("An unspecified error occurred."),
        }
    }
}

impl SemverError {
    /// An error of the given kind, met at `offset` in `input`.
    pub fn new(input: &str, offset: usize, kind: SemverErrorKind) -> (error: SemverError)
        ensures
            error@ == (SemverErrorView { input: input@, offset, kind }),
    {
        SemverError { input: String::from_str(input), offset, kind }
    }

    /// The text that was read.
    pub fn input(&self) -> (input: &str)
        ensures
            input@ == self@.input,
    {
        self.input.as_str()
    }

    /// The offset at which reading stopped.
    pub fn offset(&self) -> (offset: usize)
        ensures
            offset == self@.offset,
    {
        self.offset
    }

    /// The kind of the error.
    pub fn kind(&self) -> (kind: SemverErrorKind)
        ensures
            kind == self@.kind,
    {
        self.kind
    }

    /// The message of the error.
    pub fn to_string(&self) -> (text: String)
        ensures
            text@ == error_text(self@.kind),
    {
        let mut text = String::from_str("Error parsing semver string. ");
        let kind = self.kind.to_string();
        text.append(kind.as_str());
        text
    }

    /// The line and the column at which reading stopped, both counted
    /// from 0, in bytes of the text that was read.
    pub fn location(&self) -> (location: (usize, usize))
        ensures
            location.0 == location_of(encode_utf8(self@.input), self@.offset as int).0,
            location.1 == location_of(encode_utf8(self@.input), self@.offset as int).1,
    {
        let bytes = self.input.as_str().as_bytes();
        let end = if self.offset <= bytes.len() {
            self.offset
        } else {
            bytes.len()
        };
        let prefix = slice_subrange(bytes, 0, end);
        let line = count_bytes(prefix, 10u8);
        proof {
            lemma_occurrences_bound(prefix@, 10u8);
        }
        let mut start: usize = end;
        while start > 0 && bytes[start - 1] != 10u8
            invariant
                start <= end <= bytes@.len(),
                line_start(bytes@, end as int) == line_start(bytes@, start as int),
            decreases start,
        {
            start = start - 1;
        }
        (line, end - start)
    }
}

/// A byte occurs in a text at most as often as the text is long.
pub proof fn lemma_occurrences_bound(bytes: Seq<u8>, needle: u8)
    ensures
        occurrences(bytes, needle) <= bytes.len(),
    decreases bytes.len(),
{
    if bytes.len() > 0 {
        lemma_occurrences_bound(bytes.drop_last(), needle);
    }
}

} // verus!
