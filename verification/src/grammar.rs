//! The pieces of grammar that versions and ranges share: numbers,
//! identifiers, and the lists after `-` and `+`.

use vstd::prelude::*;
use vstd::string::StrSliceExecFns;
use vstd::string::StringExecFns;
use crate::error::{Component, SemverErrorKind};
use crate::identifier::{identifiers_view, Identifier, IdentifierView};
use crate::text::{
    all_of, decimal_value, digit_value, lemma_decimal_value_grows, lemma_decimal_value_step,
    lemma_span_end, span_end,
    CharClass,
};

verus! {

/// The largest value a numeric component of a version may take.
pub const MAX_SAFE_INTEGER: u64 = 900_719_925_474_099;

/// The largest number of characters the text of a version may have.
pub const MAX_LENGTH: usize = 256;

/// Why and where reading stopped short.
pub struct Failure {
    pub offset: int,
    pub kind: SemverErrorKind,
}

/// Why and where reading stopped short, as the reading functions report
/// it.
#[derive(Clone, Copy, Debug)]
pub struct Stop {
    pub offset: usize,
    pub kind: SemverErrorKind,
}

impl View for Stop {
    type V = Failure;

    open spec fn view(&self) -> Failure {
        Failure { offset: self.offset as int, kind: self.kind }
    }
}

/// The failure to find `component` at `pos`: where the text has ended,
/// incomplete input, reported at the last character; elsewhere, an invalid
/// component, reported at `pos`.
pub open spec fn missing(s: Seq<char>, pos: int, component: Component) -> Failure {
    if pos >= s.len() {
        Failure {
            offset: if s.len() == 0 {
                0
            } else {
                s.len() - 1
            },
            kind: SemverErrorKind::IncompleteInput,
        }
    } else {
        Failure { offset: pos, kind: SemverErrorKind::InvalidComponent(component) }
    }
}

/// The number written at `pos` and where it ends. The number is the
/// longest run of digits there; it may not be empty, and may not denote
/// more than [`MAX_SAFE_INTEGER`].
pub open spec fn number_at(s: Seq<char>, pos: int) -> Result<(u64, int), Failure> {
    let end = span_end(s, pos, CharClass::Digit);
    let value = decimal_value(s.subrange(pos, end));
    if end <= pos {
        Err(missing(s, pos, Component::VersionCore))
    } else if value > u64::MAX {
        Err(Failure { offset: pos, kind: SemverErrorKind::IntegerParseError })
    } else if value > MAX_SAFE_INTEGER {
        Err(Failure { offset: pos, kind: SemverErrorKind::IntegerTooLarge(value as u64) })
    } else {
        Ok((value as u64, end))
    }
}

/// The identifier that a token stands for: a number where the token is
/// all digits and fits 64 bits, the token itself otherwise.
pub open spec fn identifier_of(token: Seq<char>) -> IdentifierView {
    if all_of(token, CharClass::Digit) && decimal_value(token) <= u64::MAX {
        IdentifierView::Numeric(decimal_value(token) as u64)
    } else {
        IdentifierView::AlphaNumeric(token)
    }
}

/// The list of identifiers written at `pos`, after those already `found`,
/// and where the list ends. The identifiers are separated by dots; each is
/// a run of letters, digits and hyphens, and may not be empty.
pub open spec fn identifiers_at(
    s: Seq<char>,
    pos: int,
    found: Seq<IdentifierView>,
    component: Component,
) -> Result<(Seq<IdentifierView>, int), Failure>
    decreases s.len() - pos,
{
    let end = span_end(s, pos, CharClass::Token);
    if pos < 0 || end <= pos {
        Err(missing(s, pos, component))
    } else {
        let found = found.push(identifier_of(s.subrange(pos, end)));
        if end < s.len() && s[end] == '.' {
            identifiers_at(s, end + 1, found, component)
        } else {
            Ok((found, end))
        }
    }
}

/// The pre-release and build lists of a version.
pub struct Extras {
    pub pre_release: Seq<IdentifierView>,
    pub build: Seq<IdentifierView>,
}

/// The lists written at `pos` and where they end: a pre-release list
/// after `-`, if there is a `-`, then a build list after `+`, if there is
/// a `+`.
pub open spec fn extras_at(s: Seq<char>, pos: int) -> Result<(Extras, int), Failure> {
    let pre = if 0 <= pos < s.len() && s[pos] == '-' {
        identifiers_at(s, pos + 1, Seq::empty(), Component::PreRelease)
    } else {
        Ok((Seq::empty(), pos))
    };
    match pre {
        Err(failure) => Err(failure),
        Ok((pre_release, p)) => {
            if 0 <= p < s.len() && s[p] == '+' {
                match identifiers_at(s, p + 1, Seq::empty(), Component::Build) {
                    Err(failure) => Err(failure),
                    Ok((build, q)) => Ok((Extras { pre_release, build }, q)),
                }
            } else {
                Ok((Extras { pre_release, build: Seq::empty() }, p))
            }
        },
    }
}

/// Every character of `s` from `from` up to `to` is an ASCII character.
pub open spec fn plain_between(s: Seq<char>, from: int, to: int) -> bool {
    forall|i: int| from <= i < to && 0 <= i < s.len() ==> #[trigger] s[i] <= '\u{7f}'
}

/// Reading from `pos` got as far as `end`: `end` lies after `pos` and
/// within the text, and only ASCII characters were passed.
pub open spec fn passed(s: Seq<char>, pos: int, end: int) -> bool {
    pos < end <= s.len() && plain_between(s, pos, end)
}

/// Reading from `pos` stopped with `failure`: its offset lies within the
/// text, and only ASCII characters were passed on the way to it.
pub open spec fn stopped(s: Seq<char>, pos: int, failure: Failure) -> bool {
    0 <= failure.offset <= s.len() && plain_between(s, pos, failure.offset)
}

/// A run of characters of one class holds ASCII characters only.
pub proof fn lemma_span_plain(s: Seq<char>, from: int, class: CharClass)
    requires
        0 <= from <= s.len(),
    ensures
        from <= span_end(s, from, class) <= s.len(),
        plain_between(s, from, span_end(s, from, class)),
{
    lemma_span_end(s, from, class);
}

/// A number ends after its start, and reading one passes ASCII
/// characters only.
pub proof fn lemma_number_at_progress(s: Seq<char>, pos: int)
    requires
        0 <= pos <= s.len(),
    ensures
        match number_at(s, pos) {
            Ok((n, end)) => passed(s, pos, end) && n <= MAX_SAFE_INTEGER,
            Err(failure) => stopped(s, pos, failure),
        },
{
    lemma_span_plain(s, pos, CharClass::Digit);
}

/// A list of identifiers ends after its start, and reading one passes
/// ASCII characters only.
pub proof fn lemma_identifiers_at_progress(
    s: Seq<char>,
    pos: int,
    found: Seq<IdentifierView>,
    component: Component,
)
    requires
        0 <= pos <= s.len(),
    ensures
        match identifiers_at(s, pos, found, component) {
            Ok((list, end)) => passed(s, pos, end) && list.len() > found.len(),
            Err(failure) => stopped(s, pos, failure),
        },
    decreases s.len() - pos,
{
    lemma_span_plain(s, pos, CharClass::Token);
    let end = span_end(s, pos, CharClass::Token);
    if end > pos && end < s.len() && s[end] == '.' {
        lemma_identifiers_at_progress(
            s,
            end + 1,
            found.push(identifier_of(s.subrange(pos, end))),
            component,
        );
    }
}

/// The lists after a version end at or after their start, and reading
/// them passes ASCII characters only.
pub proof fn lemma_extras_at_progress(s: Seq<char>, pos: int)
    requires
        0 <= pos <= s.len(),
    ensures
        match extras_at(s, pos) {
            Ok((extras, end)) => pos <= end <= s.len() && plain_between(s, pos, end),
            Err(failure) => stopped(s, pos, failure),
        },
{
    if pos < s.len() && s[pos] == '-' {
        lemma_identifiers_at_progress(s, pos + 1, Seq::empty(), Component::PreRelease);
    }
    let pre = if 0 <= pos < s.len() && s[pos] == '-' {
        identifiers_at(s, pos + 1, Seq::empty(), Component::PreRelease)
    } else {
        Ok((Seq::empty(), pos))
    };
    match pre {
        Ok((_, p)) => {
            if p < s.len() && s[p] == '+' {
                lemma_identifiers_at_progress(s, p + 1, Seq::empty(), Component::Build);
            }
        },
        Err(_) => {},
    }
}

/// Reports that `component` was not found at `pos`.
pub fn stop_missing(s: &Vec<char>, pos: usize, component: Component) -> (stop: Stop)
    ensures
        stop@ == missing(s@, pos as int, component),
{
    if pos >= s.len() {
        Stop {
            offset: if s.len() == 0 {
                0
            } else {
                s.len() - 1
            },
            kind: SemverErrorKind::IncompleteInput,
        }
    } else {
        Stop { offset: pos, kind: SemverErrorKind::InvalidComponent(component) }
    }
}

/// Finds where the run of characters of `class` that starts at `from`
/// ends.
pub fn scan(s: &Vec<char>, from: usize, class: CharClass) -> (end: usize)
    requires
        from <= s.len(),
    ensures
        end == span_end(s@, from as int, class),
        from <= end <= s.len(),
{
    let mut end: usize = from;
    while end < s.len() && class.accepts(s[end])
        invariant
            from <= end <= s.len(),
            span_end(s@, from as int, class) == span_end(s@, end as int, class),
        decreases s.len() - end,
    {
        proof {
            reveal(span_end);
        }
        end = end + 1;
    }
    proof {
        reveal(span_end);
    }
    end
}

/// The number that the digits from `from` to `to` denote, where it fits
/// 64 bits.
pub fn read_digits(s: &Vec<char>, from: usize, to: usize) -> (value: Option<u64>)
    requires
        from <= to <= s.len(),
        all_of(s@.subrange(from as int, to as int), CharClass::Digit),
    ensures
        match value {
            Some(n) => n == decimal_value(s@.subrange(from as int, to as int)),
            None => decimal_value(s@.subrange(from as int, to as int)) > u64::MAX,
        },
{
    let ghost digits = s@.subrange(from as int, to as int);
    let mut value: u64 = 0;
    let mut i: usize = from;
    assert(s@.subrange(from as int, from as int) =~= Seq::<char>::empty());
    proof {
        lemma_decimal_value_step(s@.subrange(from as int, from as int));
    }
    while i < to
        invariant
            from <= i <= to <= s.len(),
            digits == s@.subrange(from as int, to as int),
            all_of(digits, CharClass::Digit),
            value == decimal_value(s@.subrange(from as int, i as int)),
        decreases to - i,
    {
        let c = s[i];
        assert(c == digits[i - from]);
        assert(CharClass::Digit.holds(c));
        let d: u64 = (c as u32 - '0' as u32) as u64;
        let ghost step = s@.subrange(from as int, i + 1);
        assert(step.drop_last() =~= s@.subrange(from as int, i as int));
        assert(step.last() == c);
        assert(d == digit_value(c));
        proof {
            lemma_decimal_value_step(step);
        }
        assert(decimal_value(step) == value * 10 + d);
        if value > (u64::MAX - d) / 10 {
            proof {
                lemma_decimal_value_grows(digits, i + 1 - from);
                assert(digits.subrange(0, i + 1 - from) =~= step);
            }
            return None;
        }
        value = value * 10 + d;
        i = i + 1;
    }
    Some(value)
}

/// Reads the number written at `pos`.
pub fn read_number(s: &Vec<char>, pos: usize) -> (number: Result<(u64, usize), Stop>)
    requires
        pos <= s.len(),
    ensures
        match number {
            Ok((n, end)) => number_at(s@, pos as int) == Ok::<(u64, int), Failure>(
                (n, end as int),
            ) && pos < end <= s.len(),
            Err(stop) => number_at(s@, pos as int) == Err::<(u64, int), Failure>(stop@),
        },
{
    let end = scan(s, pos, CharClass::Digit);
    proof {
        lemma_span_end(s@, pos as int, CharClass::Digit);
    }
    if end == pos {
        return Err(stop_missing(s, pos, Component::VersionCore));
    }
    match read_digits(s, pos, end) {
        None => Err(Stop { offset: pos, kind: SemverErrorKind::IntegerParseError }),
        Some(value) => {
            if value > MAX_SAFE_INTEGER {
                Err(Stop { offset: pos, kind: SemverErrorKind::IntegerTooLarge(value) })
            } else {
                Ok((value, end))
            }
        },
    }
}

/// Reads the token from `from` to `to` as an identifier.
pub fn read_identifier(text: &str, s: &Vec<char>, from: usize, to: usize) -> (identifier:
    Identifier)
    requires
        s@ == text@,
        from <= to <= s.len(),
    ensures
        identifier@ == identifier_of(s@.subrange(from as int, to as int)),
{
    let digits_end = scan(s, from, CharClass::Digit);
    proof {
        lemma_span_end(s@, from as int, CharClass::Digit);
    }
    let ghost token = s@.subrange(from as int, to as int);
    if digits_end >= to {
        assert(all_of(token, CharClass::Digit)) by {
            assert forall|i: int| 0 <= i < token.len() implies CharClass::Digit.holds(
                #[trigger] token[i],
            ) by {
                assert(token[i] == s@[from + i]);
            }
        }
        match read_digits(s, from, to) {
            Some(n) => {
                return Identifier::Numeric(n);
            },
            None => {},
        }
    } else {
        assert(!CharClass::Digit.holds(token[digits_end - from]));
    }
    Identifier::AlphaNumeric(String::from_str(text.substring_char(from, to)))
}

/// Reads the list of identifiers written at `pos`.
pub fn read_identifiers(text: &str, s: &Vec<char>, pos: usize, component: Component) -> (list:
    Result<(Vec<Identifier>, usize), Stop>)
    requires
        s@ == text@,
        pos <= s.len(),
    ensures
        match list {
            Ok((found, end)) => identifiers_at(s@, pos as int, Seq::empty(), component) == Ok::<
                (Seq<IdentifierView>, int),
                Failure,
            >((identifiers_view(found@), end as int)) && pos < end <= s.len(),
            Err(stop) => identifiers_at(s@, pos as int, Seq::empty(), component) == Err::<
                (Seq<IdentifierView>, int),
                Failure,
            >(stop@),
        },
{
    let mut found: Vec<Identifier> = Vec::new();
    let mut at: usize = pos;
    assert(identifiers_view(found@) =~= Seq::<IdentifierView>::empty());
    loop
        invariant
            s@ == text@,
            pos <= at <= s.len(),
            at == pos <==> found@.len() == 0,
            identifiers_at(s@, pos as int, Seq::empty(), component) == identifiers_at(
                s@,
                at as int,
                identifiers_view(found@),
                component,
            ),
        decreases s.len() - at,
    {
        let end = scan(s, at, CharClass::Token);
        if end == at {
            return Err(stop_missing(s, at, component));
        }
        let ghost before = identifiers_view(found@);
        let identifier = read_identifier(text, s, at, end);
        found.push(identifier);
        assert(identifiers_view(found@) =~= before.push(
            identifier_of(s@.subrange(at as int, end as int)),
        ));
        if end < s.len() && s[end] == '.' {
            at = end + 1;
        } else {
            return Ok((found, end));
        }
    }
}

/// The pre-release and build lists that were read.
pub struct ReadExtras {
    pub pre_release: Vec<Identifier>,
    pub build: Vec<Identifier>,
}

impl View for ReadExtras {
    type V = Extras;

    open spec fn view(&self) -> Extras {
        Extras {
            pre_release: identifiers_view(self.pre_release@),
            build: identifiers_view(self.build@),
        }
    }
}

/// Reads the lists written at `pos`.
pub fn read_extras(text: &str, s: &Vec<char>, pos: usize) -> (extras: Result<
    (ReadExtras, usize),
    Stop,
>)
    requires
        s@ == text@,
        pos <= s.len(),
    ensures
        match extras {
            Ok((found, end)) => extras_at(s@, pos as int) == Ok::<(Extras, int), Failure>(
                (found@, end as int),
            ) && pos <= end <= s.len(),
            Err(stop) => extras_at(s@, pos as int) == Err::<(Extras, int), Failure>(stop@),
        },
{
    let mut at: usize = pos;
    let mut pre_release: Vec<Identifier> = Vec::new();
    let mut build: Vec<Identifier> = Vec::new();
    assert(identifiers_view(pre_release@) =~= Seq::<IdentifierView>::empty());
    assert(identifiers_view(build@) =~= Seq::<IdentifierView>::empty());
    if at < s.len() && s[at] == '-' {
        match read_identifiers(text, s, at + 1, Component::PreRelease) {
            Err(stop) => {
                return Err(stop);
            },
            Ok((found, end)) => {
                pre_release = found;
                at = end;
            },
        }
    }
    if at < s.len() && s[at] == '+' {
        match read_identifiers(text, s, at + 1, Component::Build) {
            Err(stop) => {
                return Err(stop);
            },
            Ok((found, end)) => {
                build = found;
                at = end;
            },
        }
    }
    Ok((ReadExtras { pre_release, build }, at))
}

} // verus!
