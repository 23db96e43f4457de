//! What a user asks for when naming a package: a directory, or a package
//! of a registry with the versions that will do.

use vstd::prelude::*;
use vstd::string::StrSliceExecFns;
use vstd::string::StringExecFns;
use crate::error::SemverErrorKind;
use crate::range::{Range, RangeView};
use crate::range_text::parse_range;
use crate::text::{chars_of, is_digit, is_letter};

verus! {

/// A package, as a user names it.
#[derive(Debug)]
pub enum PackageSpec {
    /// A directory that holds the package.
    Dir { path: String },
    /// A package of a registry, and the range that its version has to
    /// satisfy, if one is asked for.
    NuGet { name: String, requested: Option<Range> },
}

/// What a [`PackageSpec`] stands for in specifications.
pub enum PackageSpecView {
    Dir { path: Seq<char> },
    NuGet { name: Seq<char>, requested: Option<RangeView> },
}

impl View for PackageSpec {
    type V = PackageSpecView;

    open spec fn view(&self) -> PackageSpecView {
        match self {
            PackageSpec::Dir { path } => PackageSpecView::Dir { path: path@ },
            PackageSpec::NuGet { name, requested } => PackageSpecView::NuGet {
                name: name@,
                requested: match requested {
                    Some(range) => Some(range@),
                    None => None,
                },
            },
        }
    }
}

/// The kinds of error in the name of a package.
#[derive(Clone, Copy, Debug, PartialEq, Eq, Structural)]
pub enum SpecErrorKind {
    /// The name of the package holds a character that names may not
    /// hold.
    InvalidCharacters,
    /// The range after `@` cannot be read.
    SemverParseError(SemverErrorKind),
    /// The text ended where more was expected.
    IncompleteInput,
}

/// An error in the name of a package, with the text that was read and
/// the offset at which reading stopped.
#[derive(Debug)]
pub struct PackageSpecError {
    pub input: String,
    pub offset: usize,
    pub kind: SpecErrorKind,
}

/// Why and where reading the name of a package stopped short.
pub struct SpecFailure {
    pub offset: int,
    pub kind: SpecErrorKind,
}

/// Whether `c` is the letter `lower` in either case.
pub open spec fn is_letter_of(c: char, lower: char, upper: char) -> bool {
    c == lower || c == upper
}

/// Whether `s` starts with `file:`, in any case.
pub open spec fn has_file_prefix(s: Seq<char>) -> bool {
    &&& s.len() >= 5
    &&& is_letter_of(s[0], 'f', 'F')
    &&& is_letter_of(s[1], 'i', 'I')
    &&& is_letter_of(s[2], 'l', 'L')
    &&& is_letter_of(s[3], 'e', 'E')
    &&& s[4] == ':'
}

/// Whether `s` starts with `nuget:`, in any case.
pub open spec fn has_nuget_prefix(s: Seq<char>) -> bool {
    &&& s.len() >= 6
    &&& is_letter_of(s[0], 'n', 'N')
    &&& is_letter_of(s[1], 'u', 'U')
    &&& is_letter_of(s[2], 'g', 'G')
    &&& is_letter_of(s[3], 'e', 'E')
    &&& is_letter_of(s[4], 't', 'T')
    &&& s[5] == ':'
}

/// `/` and `\` separate the parts of a path.
pub open spec fn is_path_separator(c: char) -> bool {
    c == '/' || c == '\\'
}

/// Whether a path starts at `pos`: with a dot, or with a separator that
/// may follow a drive letter and a colon.
pub open spec fn path_starts(s: Seq<char>, pos: int) -> bool {
    ||| 0 <= pos < s.len() && s[pos] == '.'
    ||| 0 <= pos < s.len() && is_path_separator(s[pos])
    ||| 0 <= pos && pos + 2 < s.len() && is_letter(s[pos]) && s[pos + 1] == ':'
        && is_path_separator(s[pos + 2])
}

/// Whether the name of a package may hold `c`: a letter, a digit, or one
/// of the marks that the address of a package can hold as they are.
pub open spec fn is_name_char(c: char) -> bool {
    is_letter(c) || is_digit(c) || c == '-' || c == '_' || c == '.' || c == '!' || c == '~'
        || c == '*' || c == '\'' || c == '(' || c == ')'
}

/// The index of the first `@` at or after `from`, or the length of `s`.
pub open spec fn at_sign(s: Seq<char>, from: int) -> int
    decreases s.len() - from,
{
    if 0 <= from < s.len() && s[from] != '@' {
        at_sign(s, from + 1)
    } else {
        from
    }
}

/// The index of the first character from `from` up to `to` that a name
/// may not hold, or `to`.
pub open spec fn name_end(s: Seq<char>, from: int, to: int) -> int
    decreases to - from,
{
    if 0 <= from < to <= s.len() && is_name_char(s[from]) {
        name_end(s, from + 1, to)
    } else {
        from
    }
}

/// What reading `s` as the name of a package gives.
///
/// A text that starts like a path, after `file:` or without it, names a
/// directory. Any other text names a package of a registry, after
/// `nuget:` or without it: the name goes up to the first `@`, and the
/// rest, if there is any, is the range that is asked for.
pub open spec fn parse_spec(s: Seq<char>) -> Result<PackageSpecView, SpecFailure> {
    let path_from: int = if has_file_prefix(s) {
        5
    } else {
        0
    };
    let name_from: int = if has_nuget_prefix(s) {
        6
    } else {
        0
    };
    let at = at_sign(s, name_from);
    if path_starts(s, path_from) {
        Ok(PackageSpecView::Dir { path: s.skip(path_from) })
    } else if at <= name_from {
        Err(
            SpecFailure {
                offset: name_from,
                kind: if name_from >= s.len() {
                    SpecErrorKind::IncompleteInput
                } else {
                    SpecErrorKind::InvalidCharacters
                },
            },
        )
    } else if name_end(s, name_from, at) < at {
        Err(
            SpecFailure {
                offset: name_end(s, name_from, at),
                kind: SpecErrorKind::InvalidCharacters,
            },
        )
    } else if at >= s.len() {
        Ok(PackageSpecView::NuGet { name: s.subrange(name_from, at), requested: None })
    } else {
        match parse_range(s.skip(at + 1)) {
            Ok(range) => Ok(
                PackageSpecView::NuGet { name: s.subrange(name_from, at), requested: Some(range) },
            ),
            Err(failure) => Err(
                SpecFailure {
                    offset: at + 1 + failure.offset,
                    kind: SpecErrorKind::SemverParseError(failure.kind),
                },
            ),
        }
    }
}

fn letter_of(c: char, lower: char, upper: char) -> (yes: bool)
    ensures
        yes == is_letter_of(c, lower, upper),
{
    c == lower || c == upper
}

fn path_separator(c: char) -> (yes: bool)
    ensures
        yes == is_path_separator(c),
{
    c == '/' || c == '\\'
}

fn letter(c: char) -> (yes: bool)
    ensures
        yes == is_letter(c),
{
    ('a' <= c && c <= 'z') || ('A' <= c && c <= 'Z')
}

fn name_char(c: char) -> (yes: bool)
    ensures
        yes == is_name_char(c),
{
    letter(c) || ('0' <= c && c <= '9') || c == '-' || c == '_' || c == '.' || c == '!' || c
        == '~' || c == '*' || c == '\'' || c == '(' || c == ')'
}

fn starts_path(s: &Vec<char>, pos: usize) -> (yes: bool)
    requires
        pos <= 5,
    ensures
        yes == path_starts(s@, pos as int),
{
    if pos < s.len() && (s[pos] == '.' || path_separator(s[pos])) {
        true
    } else {
        pos + 2 < s.len() && letter(s[pos]) && s[pos + 1] == ':' && path_separator(s[pos + 2])
    }
}

impl PackageSpec {
    /// Reads the name of a package.
    pub fn parse(input: &str) -> (spec: Result<PackageSpec, PackageSpecError>)
        ensures
            match spec {
                Ok(found) => parse_spec(input@) == Ok::<PackageSpecView, SpecFailure>(found@),
                Err(error) => parse_spec(input@) matches Err(failure) && error.input@ == input@
                    && error.offset == failure.offset && error.kind == failure.kind,
            },
    {
        let s = chars_of(input);
        let file = s.len() >= 5 && letter_of(s[0], 'f', 'F') && letter_of(s[1], 'i', 'I')
            && letter_of(s[2], 'l', 'L') && letter_of(s[3], 'e', 'E') && s[4] == ':';
        let path_from: usize = if file {
            5
        } else {
            0
        };
        if starts_path(&s, path_from) {
            let path = String::from_str(input.substring_char(path_from, s.len()));
            assert(path@ =~= s@.skip(path_from as int));
            return Ok(PackageSpec::Dir { path });
        }
        let nuget = s.len() >= 6 && letter_of(s[0], 'n', 'N') && letter_of(s[1], 'u', 'U')
            && letter_of(s[2], 'g', 'G') && letter_of(s[3], 'e', 'E') && letter_of(
            s[4],
            't',
            'T',
        ) && s[5] == ':';
        let name_from: usize = if nuget {
            6
        } else {
            0
        };
        let mut at: usize = name_from;
        while at < s.len() && s[at] != '@'
            invariant
                name_from <= at <= s.len(),
                at_sign(s@, name_from as int) == at_sign(s@, at as int),
            decreases s.len() - at,
        {
            at = at + 1;
        }
        if at <= name_from {
            let kind = if name_from >= s.len() {
                SpecErrorKind::IncompleteInput
            } else {
                SpecErrorKind::InvalidCharacters
            };
            return Err(PackageSpecError { input: String::from_str(input), offset: name_from, kind });
        }
        let mut end: usize = name_from;
        while end < at && name_char(s[end])
            invariant
                name_from <= end <= at <= s.len(),
                name_end(s@, name_from as int, at as int) == name_end(s@, end as int, at as int),
            decreases at - end,
        {
            end = end + 1;
        }
        if end < at {
            return Err(
                PackageSpecError {
                    input: String::from_str(input),
                    offset: end,
                    kind: SpecErrorKind::InvalidCharacters,
                },
            );
        }
        let name = String::from_str(input.substring_char(name_from, at));
        if at >= s.len() {
            return Ok(PackageSpec::NuGet { name, requested: None });
        }
        let rest = input.substring_char(at + 1, s.len());
        assert(rest@ =~= s@.skip(at + 1));
        match Range::parse(rest) {
            Ok(range) => Ok(PackageSpec::NuGet { name, requested: Some(range) }),
            Err(error) => {
                let offset = error.offset();
                Err(
                    PackageSpecError {
                        input: String::from_str(input),
                        offset: at + 1 + offset,
                        kind: SpecErrorKind::SemverParseError(error.kind()),
                    },
                )
            },
        }
    }
}

impl std::str::FromStr for PackageSpec {
    type Err = PackageSpecError;

    fn from_str(s: &str) -> (spec: Result<Self, Self::Err>)
        ensures
            match spec {
                Ok(found) => parse_spec(s@) == Ok::<PackageSpecView, SpecFailure>(found@),
                Err(error) => parse_spec(s@) matches Err(failure) && error.input@ == s@
                    && error.offset == failure.offset && error.kind == failure.kind,
            },
    {
        PackageSpec::parse(s)
    }
}

impl PartialEq for PackageSpec {
    fn eq(&self, other: &Self) -> (equal: bool) {
        match (self, other) {
            (PackageSpec::Dir { path: a }, PackageSpec::Dir { path: b }) => *a == *b,
            (
                PackageSpec::NuGet { name: a, requested: x },
                PackageSpec::NuGet { name: b, requested: y },
            ) => {
                *a == *b && match (x, y) {
                    (Some(p), Some(q)) => *p == *q,
                    (None, None) => true,
                    _ => false,
                }
            },
            _ => false,
        }
    }
}

impl vstd::std_specs::cmp::PartialEqSpecImpl for PackageSpec {
    open spec fn obeys_eq_spec() -> bool {
        true
    }

    open spec fn eq_spec(&self, other: &Self) -> bool {
        match (self@, other@) {
            (PackageSpecView::Dir { path: a }, PackageSpecView::Dir { path: b }) => a == b,
            (
                PackageSpecView::NuGet { name: a, requested: x },
                PackageSpecView::NuGet { name: b, requested: y },
            ) => a == b && match (x, y) {
                (Some(p), Some(q)) => p.same(q),
                (None, None) => true,
                _ => false,
            },
            _ => false,
        }
    }
}

} // verus!
