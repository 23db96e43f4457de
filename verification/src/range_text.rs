//! Ranges as text: reading them and writing them.

use vstd::prelude::*;
use vstd::string::StringExecFns;
use crate::bound::{Bound, BoundView, Predicate, PredicateView};
use crate::comparator::{comparators_view, ComparatorSet, ComparatorSetView};
use crate::error::{Component, SemverError, SemverErrorKind};
use crate::grammar::{
    extras_at, lemma_extras_at_progress, lemma_number_at_progress, lemma_span_plain, missing,
    number_at, passed, read_extras, read_number, scan, stop_missing, stopped,
    Extras, Failure, ReadExtras, Stop, MAX_SAFE_INTEGER,
};
use crate::identifier::{identifiers_view, Identifier, IdentifierView};
use crate::range::{all_well_formed, Range, RangeView};
use crate::text::{chars_of, is_digit, lemma_span_end, span_end, CharClass};
use crate::version::{
    clone_identifiers, identifiers_order_from, version_eq, version_order, Version, VersionView,
};
use crate::version_text::{
    error_of, lemma_version_reads_back, numbers_at, printable_version,
    version_of, version_text, written_numbers,
};

verus! {

/// A version as ranges write it: up to four components, each a number or
/// a wildcard, and the lists of a version.
pub struct Partial {
    /// The numbers given before the first wildcard or the end.
    pub numbers: Seq<u64>,
    /// Whether a wildcard was written.
    pub wildcard: bool,
    pub extras: Extras,
}

impl Partial {
    /// The version that the partial version names: each component that is
    /// not given is 0.
    pub open spec fn version(self) -> VersionView {
        version_of(self.numbers, self.extras)
    }

    /// Whether major, minor and patch are all given as numbers, and no
    /// wildcard is written.
    pub open spec fn pinned(self) -> bool {
        self.numbers.len() >= 3 && !self.wildcard
    }

    /// No more than four numbers are given, and none is larger than
    /// [`MAX_SAFE_INTEGER`].
    pub open spec fn bounded(self) -> bool {
        &&& self.numbers.len() <= 4
        &&& forall|i: int|
            0 <= i < self.numbers.len() ==> #[trigger] self.numbers[i] <= MAX_SAFE_INTEGER
    }
}

/// `x`, `X` and `*` stand for any number.
pub open spec fn is_wildcard(c: char) -> bool {
    c == 'x' || c == 'X' || c == '*'
}

/// The components written at `pos`, after the numbers already `found`
/// among the `seen` components before, and where they end. Components are
/// separated by dots; there are at most four; after a wildcard only
/// wildcards may follow.
#[verifier::opaque]
pub open spec fn components_at(
    s: Seq<char>,
    pos: int,
    found: Seq<u64>,
    seen: int,
    wildcard: bool,
) -> Result<((Seq<u64>, bool), int), Failure>
    decreases 4 - seen,
{
    if 0 <= pos < s.len() && is_wildcard(s[pos]) {
        if seen + 1 < 4 && pos + 1 < s.len() && s[pos + 1] == '.' {
            components_at(s, pos + 2, found, seen + 1, true)
        } else {
            Ok(((found, true), pos + 1))
        }
    } else if wildcard {
        Err(missing(s, pos, Component::VersionCore))
    } else {
        match number_at(s, pos) {
            Err(failure) => Err(failure),
            Ok((n, end)) => {
                if seen + 1 < 4 && 0 <= end < s.len() && s[end] == '.' {
                    components_at(s, end + 1, found.push(n), seen + 1, false)
                } else {
                    Ok(((found.push(n), false), end))
                }
            },
        }
    }
}

/// The partial version written at `pos` and where it ends.
pub open spec fn partial_at(s: Seq<char>, pos: int) -> Result<(Partial, int), Failure> {
    match components_at(s, pos, Seq::empty(), 0, false) {
        Err(failure) => Err(failure),
        Ok(((numbers, wildcard), p)) => match extras_at(s, p) {
            Err(failure) => Err(failure),
            Ok((extras, q)) => Ok((Partial { numbers, wildcard, extras }, q)),
        },
    }
}

/// The lowest version above every version that agrees with `v` in its
/// first `k` components: the `k`-th component is one more, the later ones
/// are 0, and the pre-release list is the single number 0, so that none
/// of its pre-releases lies below it.
pub open spec fn ceiling(v: VersionView, k: int) -> VersionView {
    VersionView {
        major: if k <= 1 {
            (v.major + 1) as u64
        } else {
            v.major
        },
        minor: if k <= 1 {
            0
        } else if k == 2 {
            (v.minor + 1) as u64
        } else {
            v.minor
        },
        patch: if k <= 2 {
            0
        } else {
            (v.patch + 1) as u64
        },
        revision: 0,
        build: Seq::empty(),
        pre_release: seq![IdentifierView::Numeric(0)],
    }
}

/// The lower edge that includes `v`.
pub open spec fn lower_including(v: VersionView) -> BoundView {
    BoundView::Lower(PredicateView::Including(v))
}

/// The lower edge that excludes `v`.
pub open spec fn lower_excluding(v: VersionView) -> BoundView {
    BoundView::Lower(PredicateView::Excluding(v))
}

/// The upper edge that includes `v`.
pub open spec fn upper_including(v: VersionView) -> BoundView {
    BoundView::Upper(PredicateView::Including(v))
}

/// The upper edge that excludes `v`.
pub open spec fn upper_excluding(v: VersionView) -> BoundView {
    BoundView::Upper(PredicateView::Excluding(v))
}

/// The missing lower edge.
pub open spec fn lower_unbounded() -> BoundView {
    BoundView::Lower(PredicateView::Unbounded)
}

/// The missing upper edge.
pub open spec fn upper_unbounded() -> BoundView {
    BoundView::Upper(PredicateView::Unbounded)
}

/// The upper edge that rounds a partial version up: none for a bare
/// wildcard, the version itself where it is pinned, and otherwise the
/// ceiling at its last given component.
pub open spec fn rounded_upper(partial: Partial) -> BoundView {
    if partial.numbers.len() == 0 {
        upper_unbounded()
    } else if partial.pinned() {
        upper_including(partial.version())
    } else {
        upper_excluding(ceiling(partial.version(), partial.numbers.len() as int))
    }
}

/// The interval of a partial version that stands alone: from the version
/// it names up to its rounded upper edge. It floats where a wildcard is
/// written.
pub open spec fn plain_set(partial: Partial) -> ComparatorSetView {
    ComparatorSetView {
        floating: partial.wildcard,
        lower: lower_including(partial.version()),
        upper: rounded_upper(partial),
    }
}

/// The operators that may stand before a partial version.
#[derive(Clone, Copy, Debug, PartialEq, Eq, Structural)]
pub enum Operator {
    /// `=`
    Exact,
    /// `>`
    Greater,
    /// `>=`
    GreaterEq,
    /// `<`
    Less,
    /// `<=`
    LessEq,
    /// `^`
    Caret,
    /// `~`
    Tilde,
}

/// The interval of an operator before a partial version.
///
/// `=` pins the version and floats only with a wildcard; all others
/// float. `>`, `>=`, `<` and `<=` bound one side at the version. `^` goes
/// up to the ceiling at the leftmost of major, minor and patch that is not
/// 0, or at patch. `~` goes up to the ceiling at minor where minor is
/// given, at major where only major is, and has no upper edge where
/// nothing is.
pub open spec fn operator_set(operator: Operator, partial: Partial) -> ComparatorSetView {
    let v = partial.version();
    match operator {
        Operator::Exact => ComparatorSetView {
            floating: partial.wildcard,
            lower: lower_including(v),
            upper: upper_including(v),
        },
        Operator::Greater => ComparatorSetView {
            floating: true,
            lower: lower_excluding(v),
            upper: upper_unbounded(),
        },
        Operator::GreaterEq => ComparatorSetView {
            floating: true,
            lower: lower_including(v),
            upper: upper_unbounded(),
        },
        Operator::Less => ComparatorSetView {
            floating: true,
            lower: lower_unbounded(),
            upper: upper_excluding(v),
        },
        Operator::LessEq => ComparatorSetView {
            floating: true,
            lower: lower_unbounded(),
            upper: upper_including(v),
        },
        Operator::Caret => ComparatorSetView {
            floating: true,
            lower: lower_including(v),
            upper: upper_excluding(
                ceiling(
                    v,
                    if v.major > 0 {
                        1
                    } else if v.minor > 0 {
                        2
                    } else {
                        3
                    },
                ),
            ),
        },
        Operator::Tilde => ComparatorSetView {
            floating: true,
            lower: lower_including(v),
            upper: if partial.numbers.len() >= 2 {
                upper_excluding(ceiling(v, 2))
            } else if partial.numbers.len() == 1 {
                upper_excluding(ceiling(v, 1))
            } else {
                upper_unbounded()
            },
        },
    }
}

/// The interval of a hyphen range: from the first version up to the
/// rounded upper edge of the second.
pub open spec fn hyphen_set(first: Partial, second: Partial) -> ComparatorSetView {
    ComparatorSetView {
        floating: first.wildcard || second.wildcard,
        lower: lower_including(first.version()),
        upper: rounded_upper(second),
    }
}

/// The predicate of one side of a bracket range: unbounded where nothing
/// or a bare wildcard is written.
pub open spec fn bracket_edge(inclusive: bool, partial: Option<Partial>) -> PredicateView {
    match partial {
        None => PredicateView::Unbounded,
        Some(p) => {
            if p.numbers.len() == 0 {
                PredicateView::Unbounded
            } else if inclusive {
                PredicateView::Including(p.version())
            } else {
                PredicateView::Excluding(p.version())
            }
        },
    }
}

/// The interval of a bracket range. It floats where a wildcard is
/// written on either side.
pub open spec fn bracket_set(
    open_inclusive: bool,
    first: Option<Partial>,
    second: Option<Partial>,
    close_inclusive: bool,
) -> ComparatorSetView {
    ComparatorSetView {
        floating: (first matches Some(p) && p.wildcard) || (second matches Some(p)
            && p.wildcard),
        lower: BoundView::Lower(bracket_edge(open_inclusive, first)),
        upper: BoundView::Upper(bracket_edge(close_inclusive, second)),
    }
}

/// The interval `set`, read from `start` to `end`, where it is well
/// formed; the failure to name an interval otherwise.
pub open spec fn checked(set: ComparatorSetView, start: int, end: int) -> Result<
    (ComparatorSetView, int),
    Failure,
> {
    if set.well_formed() {
        Ok((set, end))
    } else {
        Err(
            Failure {
                offset: start,
                kind: SemverErrorKind::InvalidComponent(Component::Interval),
            },
        )
    }
}

/// Where the blanks that start at `pos` end.
pub open spec fn blanks_end(s: Seq<char>, pos: int) -> int {
    span_end(s, pos, CharClass::Blank)
}

/// The operator written at `pos` and where it ends, if there is one.
pub open spec fn operator_at(s: Seq<char>, pos: int) -> Option<(Operator, int)> {
    if !(0 <= pos < s.len()) {
        None
    } else if s[pos] == '>' {
        if pos + 1 < s.len() && s[pos + 1] == '=' {
            Some((Operator::GreaterEq, pos + 2))
        } else {
            Some((Operator::Greater, pos + 1))
        }
    } else if s[pos] == '<' {
        if pos + 1 < s.len() && s[pos + 1] == '=' {
            Some((Operator::LessEq, pos + 2))
        } else {
            Some((Operator::Less, pos + 1))
        }
    } else if s[pos] == '=' {
        Some((Operator::Exact, pos + 1))
    } else if s[pos] == '^' {
        Some((Operator::Caret, pos + 1))
    } else if s[pos] == '~' {
        Some((Operator::Tilde, pos + 1))
    } else {
        None
    }
}

/// Whether a partial version starts at `pos`: with a digit or a wildcard.
pub open spec fn starts_partial(s: Seq<char>, pos: int) -> bool {
    0 <= pos < s.len() && (is_digit(s[pos]) || is_wildcard(s[pos]))
}

/// The partial version written at `pos`, if one starts there, and where
/// it ends.
pub open spec fn optional_partial_at(s: Seq<char>, pos: int) -> Result<
    (Option<Partial>, int),
    Failure,
> {
    if starts_partial(s, pos) {
        match partial_at(s, pos) {
            Err(failure) => Err(failure),
            Ok((partial, end)) => Ok((Some(partial), end)),
        }
    } else {
        Ok((None, pos))
    }
}

/// The closing bracket written at `pos`: whether it includes its version,
/// and where it ends.
pub open spec fn close_at(s: Seq<char>, pos: int) -> Result<(bool, int), Failure> {
    if 0 <= pos < s.len() && s[pos] == ']' {
        Ok((true, pos + 1))
    } else if 0 <= pos < s.len() && s[pos] == ')' {
        Ok((false, pos + 1))
    } else {
        Err(missing(s, pos, Component::ClosingBracket))
    }
}

/// The bracket range written at `pos`, where `s[pos]` is `[` or `(`, and
/// where it ends.
///
/// Between the brackets stand a version, or a comma with a version on
/// either side, on both sides or on none. A square bracket includes the
/// version next to it, a round one excludes it. One version without a
/// comma is both the lower and the upper edge.
pub open spec fn bracket_at(s: Seq<char>, pos: int) -> Result<(ComparatorSetView, int), Failure> {
    let open_inclusive = s[pos] == '[';
    match optional_partial_at(s, blanks_end(s, pos + 1)) {
        Err(failure) => Err(failure),
        Ok((first, p)) => {
            let comma = blanks_end(s, p);
            if 0 <= comma < s.len() && s[comma] == ',' {
                match optional_partial_at(s, blanks_end(s, comma + 1)) {
                    Err(failure) => Err(failure),
                    Ok((second, q)) => match close_at(s, blanks_end(s, q)) {
                        Err(failure) => Err(failure),
                        Ok((close_inclusive, end)) => checked(
                            bracket_set(open_inclusive, first, second, close_inclusive),
                            pos,
                            end,
                        ),
                    },
                }
            } else if first is None {
                Err(missing(s, comma, Component::VersionCore))
            } else {
                match close_at(s, comma) {
                    Err(failure) => Err(failure),
                    Ok((close_inclusive, end)) => checked(
                        bracket_set(open_inclusive, first, first, close_inclusive),
                        pos,
                        end,
                    ),
                }
            }
        },
    }
}

/// Whether a hyphen with blanks on both sides stands after the blanks at
/// `pos`.
pub open spec fn hyphen_follows(s: Seq<char>, pos: int) -> bool {
    let dash = blanks_end(s, pos);
    &&& pos < dash < s.len()
    &&& s[dash] == '-'
    &&& blanks_end(s, dash + 1) > dash + 1
}

/// The interval written at `pos` and where it ends: a bracket range, an
/// operator before a partial version, two partial versions around a
/// hyphen, or a partial version alone.
pub open spec fn item_at(s: Seq<char>, pos: int) -> Result<(ComparatorSetView, int), Failure> {
    if 0 <= pos < s.len() && (s[pos] == '[' || s[pos] == '(') {
        bracket_at(s, pos)
    } else {
        match operator_at(s, pos) {
            Some((operator, p)) => match partial_at(s, blanks_end(s, p)) {
                Err(failure) => Err(failure),
                Ok((partial, end)) => checked(operator_set(operator, partial), pos, end),
            },
            None => match partial_at(s, pos) {
                Err(failure) => Err(failure),
                Ok((first, end)) => {
                    if hyphen_follows(s, end) {
                        match partial_at(s, blanks_end(s, blanks_end(s, end) + 1)) {
                            Err(failure) => Err(failure),
                            Ok((second, end)) => checked(hyphen_set(first, second), pos, end),
                        }
                    } else {
                        checked(plain_set(first), pos, end)
                    }
                },
            },
        }
    }
}

/// The components of a partial version end after their start, and
/// reading them passes ASCII characters only.
pub proof fn lemma_components_at_progress(
    s: Seq<char>,
    pos: int,
    found: Seq<u64>,
    seen: int,
    wildcard: bool,
)
    requires
        0 <= pos <= s.len(),
    ensures
        match components_at(s, pos, found, seen, wildcard) {
            Ok((_, end)) => passed(s, pos, end),
            Err(failure) => stopped(s, pos, failure),
        },
    decreases 4 - seen,
{
    reveal(components_at);
    lemma_number_at_progress(s, pos);
    if pos < s.len() && is_wildcard(s[pos]) {
        if seen + 1 < 4 && pos + 1 < s.len() && s[pos + 1] == '.' {
            lemma_components_at_progress(s, pos + 2, found, seen + 1, true);
        }
    } else if !wildcard {
        match number_at(s, pos) {
            Ok((n, end)) => {
                if seen + 1 < 4 && end < s.len() && s[end] == '.' {
                    lemma_components_at_progress(s, end + 1, found.push(n), seen + 1, false);
                }
            },
            Err(_) => {},
        }
    }
}

/// A partial version ends after its start, and reading one passes ASCII
/// characters only.
pub proof fn lemma_partial_at_progress(s: Seq<char>, pos: int)
    requires
        0 <= pos <= s.len(),
    ensures
        match partial_at(s, pos) {
            Ok((_, end)) => passed(s, pos, end),
            Err(failure) => stopped(s, pos, failure),
        },
{
    lemma_components_at_progress(s, pos, Seq::empty(), 0, false);
    match components_at(s, pos, Seq::empty(), 0, false) {
        Ok((_, p)) => {
            lemma_extras_at_progress(s, p);
        },
        Err(_) => {},
    }
}

/// A bracket range ends after its start, and reading one passes ASCII
/// characters only.
pub proof fn lemma_bracket_at_progress(s: Seq<char>, pos: int)
    requires
        0 <= pos < s.len(),
        s[pos] == '[' || s[pos] == '(',
    ensures
        match bracket_at(s, pos) {
            Ok((_, end)) => passed(s, pos, end),
            Err(failure) => stopped(s, pos, failure),
        },
{
    let start = blanks_end(s, pos + 1);
    lemma_span_plain(s, pos + 1, CharClass::Blank);
    if starts_partial(s, start) {
        lemma_partial_at_progress(s, start);
    }
    match optional_partial_at(s, start) {
        Err(_) => {},
        Ok((first, p)) => {
            let comma = blanks_end(s, p);
            lemma_span_plain(s, p, CharClass::Blank);
            if comma < s.len() && s[comma] == ',' {
                let next = blanks_end(s, comma + 1);
                lemma_span_plain(s, comma + 1, CharClass::Blank);
                if starts_partial(s, next) {
                    lemma_partial_at_progress(s, next);
                }
                match optional_partial_at(s, next) {
                    Err(_) => {},
                    Ok((_, q)) => {
                        lemma_span_plain(s, q, CharClass::Blank);
                    },
                }
            }
        },
    }
}

/// An interval ends after its start, and reading one passes ASCII
/// characters only.
pub proof fn lemma_item_at_progress(s: Seq<char>, pos: int)
    requires
        0 <= pos <= s.len(),
    ensures
        match item_at(s, pos) {
            Ok((_, end)) => passed(s, pos, end),
            Err(failure) => stopped(s, pos, failure),
        },
{
    if pos < s.len() && (s[pos] == '[' || s[pos] == '(') {
        lemma_bracket_at_progress(s, pos);
    } else {
        match operator_at(s, pos) {
            Some((_, p)) => {
                lemma_span_plain(s, p, CharClass::Blank);
                lemma_partial_at_progress(s, blanks_end(s, p));
            },
            None => {
                lemma_partial_at_progress(s, pos);
                match partial_at(s, pos) {
                    Ok((_, end)) => {
                        lemma_span_plain(s, end, CharClass::Blank);
                        if hyphen_follows(s, end) {
                            let dash = blanks_end(s, end);
                            lemma_span_plain(s, dash + 1, CharClass::Blank);
                            lemma_partial_at_progress(s, blanks_end(s, dash + 1));
                        }
                    },
                    Err(_) => {},
                }
            },
        }
    }
}

/// The intervals written at `pos`, after those already `found`: each may
/// stand between blanks, and `||` separates them.
#[verifier::opaque]
pub open spec fn items_at(s: Seq<char>, pos: int, found: Seq<ComparatorSetView>) -> Result<
    Seq<ComparatorSetView>,
    Failure,
>
    decreases s.len() - pos,
    when 0 <= pos <= s.len()
    via items_at_decreases
{
    match item_at(s, blanks_end(s, pos)) {
        Err(failure) => Err(failure),
        Ok((set, end)) => {
            let after = blanks_end(s, end);
            if after >= s.len() {
                Ok(found.push(set))
            } else if after + 1 < s.len() && s[after] == '|' && s[after + 1] == '|' {
                items_at(s, after + 2, found.push(set))
            } else {
                Err(Failure { offset: after, kind: SemverErrorKind::Other })
            }
        },
    }
}

#[via_fn]
proof fn items_at_decreases(s: Seq<char>, pos: int, found: Seq<ComparatorSetView>) {
    lemma_span_plain(s, pos, CharClass::Blank);
    lemma_item_at_progress(s, blanks_end(s, pos));
    match item_at(s, blanks_end(s, pos)) {
        Ok((_, end)) => {
            lemma_span_plain(s, end, CharClass::Blank);
        },
        Err(_) => {},
    }
}

/// Reading the intervals of a range passes ASCII characters only.
pub proof fn lemma_items_at_progress(s: Seq<char>, pos: int, found: Seq<ComparatorSetView>)
    requires
        0 <= pos <= s.len(),
    ensures
        items_at(s, pos, found) matches Err(failure) ==> stopped(s, pos, failure),
    decreases s.len() - pos,
{
    reveal(items_at);
    lemma_span_plain(s, pos, CharClass::Blank);
    lemma_item_at_progress(s, blanks_end(s, pos));
    match item_at(s, blanks_end(s, pos)) {
        Ok((set, end)) => {
            lemma_span_plain(s, end, CharClass::Blank);
            let after = blanks_end(s, end);
            if after + 1 < s.len() && s[after] == '|' && s[after + 1] == '|' {
                lemma_items_at_progress(s, after + 2, found.push(set));
            }
        },
        Err(_) => {},
    }
}

/// Where reading a range fails, the offset of the failure lies within
/// the text, and every character before it is an ASCII character: the
/// offset counts bytes as well as characters.
pub proof fn lemma_range_failure_offset(s: Seq<char>)
    ensures
        parse_range(s) matches Err(failure) ==> stopped(s, 0, failure),
{
    lemma_items_at_progress(s, 0, Seq::empty());
}

/// What reading `s` as a range gives: the range, or why and where reading
/// stopped.
pub open spec fn parse_range(s: Seq<char>) -> Result<RangeView, Failure> {
    match items_at(s, 0, Seq::empty()) {
        Err(failure) => Err(failure),
        Ok(comparators) => Ok(RangeView { comparators }),
    }
}

/// A partial version that was read.
pub struct ReadPartial {
    pub numbers: Vec<u64>,
    pub wildcard: bool,
    pub extras: ReadExtras,
}

impl View for ReadPartial {
    type V = Partial;

    open spec fn view(&self) -> Partial {
        Partial { numbers: self.numbers@, wildcard: self.wildcard, extras: self.extras@ }
    }
}

fn wildcard_char(c: char) -> (yes: bool)
    ensures
        yes == is_wildcard(c),
{
    c == 'x' || c == 'X' || c == '*'
}

impl ReadPartial {
    /// The version that the partial version names.
    pub fn version(&self) -> (version: Version)
        ensures
            version@ == self@.version(),
    {
        Version {
            major: if self.numbers.len() > 0 {
                self.numbers[0]
            } else {
                0
            },
            minor: if self.numbers.len() > 1 {
                self.numbers[1]
            } else {
                0
            },
            patch: if self.numbers.len() > 2 {
                self.numbers[2]
            } else {
                0
            },
            revision: if self.numbers.len() > 3 {
                self.numbers[3]
            } else {
                0
            },
            build: clone_identifiers(&self.extras.build),
            pre_release: clone_identifiers(&self.extras.pre_release),
        }
    }

    /// The upper edge that rounds the partial version up.
    pub fn rounded_upper(&self) -> (bound: Bound)
        requires
            self@.bounded(),
        ensures
            bound@ == rounded_upper(self@),
    {
        if self.numbers.len() == 0 {
            Bound::upper()
        } else if self.numbers.len() >= 3 && !self.wildcard {
            Bound::Upper(Predicate::Including(self.version()))
        } else {
            let version = self.version();
            assert(self@.numbers[0] <= MAX_SAFE_INTEGER);
            if self.numbers.len() > 1 {
                assert(self@.numbers[1] <= MAX_SAFE_INTEGER);
            }
            if self.numbers.len() > 2 {
                assert(self@.numbers[2] <= MAX_SAFE_INTEGER);
            }
            let k: u8 = if self.numbers.len() == 1 {
                1
            } else if self.numbers.len() == 2 {
                2
            } else {
                3
            };
            Bound::Upper(Predicate::Excluding(ceiling_of(&version, k)))
        }
    }
}

/// The ceiling of `version` at its `k`-th component.
pub fn ceiling_of(version: &Version, k: u8) -> (ceiling_version: Version)
    requires
        1 <= k <= 3,
        version.major <= MAX_SAFE_INTEGER,
        version.minor <= MAX_SAFE_INTEGER,
        version.patch <= MAX_SAFE_INTEGER,
    ensures
        ceiling_version@ == ceiling(version@, k as int),
{
    let mut pre_release: Vec<Identifier> = Vec::new();
    pre_release.push(Identifier::Numeric(0));
    let result = Version {
        major: if k <= 1 {
            version.major + 1
        } else {
            version.major
        },
        minor: if k <= 1 {
            0
        } else if k == 2 {
            version.minor + 1
        } else {
            version.minor
        },
        patch: if k <= 2 {
            0
        } else {
            version.patch + 1
        },
        revision: 0,
        build: Vec::new(),
        pre_release,
    };
    assert(result@.build =~= Seq::empty());
    assert(result@.pre_release =~= seq![IdentifierView::Numeric(0)]);
    result
}

/// Reads the components written at `pos`.
pub fn read_components(s: &Vec<char>, pos: usize) -> (components: Result<
    ((Vec<u64>, bool), usize),
    Stop,
>)
    requires
        pos <= s.len(),
    ensures
        match components {
            Ok(((numbers, wildcard), end)) => {
                &&& components_at(s@, pos as int, Seq::empty(), 0, false) == Ok::<
                    ((Seq<u64>, bool), int),
                    Failure,
                >(((numbers@, wildcard), end as int))
                &&& pos < end <= s.len()
                &&& numbers@.len() <= 4
                &&& forall|i: int| 0 <= i < numbers@.len() ==> #[trigger] numbers@[i]
                    <= MAX_SAFE_INTEGER
            },
            Err(stop) => components_at(s@, pos as int, Seq::empty(), 0, false) == Err::<
                ((Seq<u64>, bool), int),
                Failure,
            >(stop@),
        },
{
    let mut numbers: Vec<u64> = Vec::new();
    let mut seen: usize = 0;
    let mut wildcard = false;
    let mut at: usize = pos;
    loop
        invariant_except_break
            seen < 4,
            numbers@.len() <= seen,
            components_at(s@, pos as int, Seq::empty(), 0, false) == components_at(
                s@,
                at as int,
                numbers@,
                seen as int,
                wildcard,
            ),
        invariant
            pos <= at <= s.len(),
            numbers@.len() <= 4,
            forall|i: int| 0 <= i < numbers@.len() ==> #[trigger] numbers@[i] <= MAX_SAFE_INTEGER,
        ensures
            components_at(s@, pos as int, Seq::empty(), 0, false) == Ok::<
                ((Seq<u64>, bool), int),
                Failure,
            >(((numbers@, wildcard), at as int)),
            pos < at,
        decreases 4 - seen,
    {
        proof {
            reveal(components_at);
        }
        if at < s.len() && wildcard_char(s[at]) {
            wildcard = true;
            if seen + 1 < 4 && at + 1 < s.len() && s[at + 1] == '.' {
                at = at + 2;
                seen = seen + 1;
            } else {
                at = at + 1;
                break ;
            }
        } else if wildcard {
            return Err(stop_missing(s, at, Component::VersionCore));
        } else {
            match read_number(s, at) {
                Err(stop) => {
                    return Err(stop);
                },
                Ok((n, end)) => {
                    numbers.push(n);
                    if seen + 1 < 4 && end < s.len() && s[end] == '.' {
                        at = end + 1;
                        seen = seen + 1;
                    } else {
                        at = end;
                        break ;
                    }
                },
            }
        }
    }
    Ok(((numbers, wildcard), at))
}

/// Reads the partial version written at `pos`.
pub fn read_partial(text: &str, s: &Vec<char>, pos: usize) -> (partial: Result<
    (ReadPartial, usize),
    Stop,
>)
    requires
        s@ == text@,
        pos <= s.len(),
    ensures
        match partial {
            Ok((found, end)) => {
                &&& partial_at(s@, pos as int) == Ok::<(Partial, int), Failure>(
                    (found@, end as int),
                )
                &&& pos < end <= s.len()
                &&& found@.bounded()
            },
            Err(stop) => partial_at(s@, pos as int) == Err::<(Partial, int), Failure>(stop@),
        },
{
    match read_components(s, pos) {
        Err(stop) => Err(stop),
        Ok(((numbers, wildcard), p)) => match read_extras(text, s, p) {
            Err(stop) => Err(stop),
            Ok((extras, q)) => Ok((ReadPartial { numbers, wildcard, extras }, q)),
        },
    }
}

/// Builds the interval `set` from its edges, where it is well formed.
fn check(lower: Bound, upper: Bound, floating: bool, start: usize, end: usize) -> (item: Result<
    (ComparatorSet, usize),
    Stop,
>)
    ensures
        match item {
            Ok((set, stop)) => checked(
                ComparatorSetView { floating, lower: lower@, upper: upper@ },
                start as int,
                end as int,
            ) == Ok::<(ComparatorSetView, int), Failure>((set@, stop as int)) && stop == end
                && set@.well_formed(),
            Err(stop) => checked(
                ComparatorSetView { floating, lower: lower@, upper: upper@ },
                start as int,
                end as int,
            ) == Err::<(ComparatorSetView, int), Failure>(stop@),
        },
{
    match ComparatorSet::new(lower, upper, floating) {
        Some(set) => Ok((set, end)),
        None => Err(
            Stop { offset: start, kind: SemverErrorKind::InvalidComponent(Component::Interval) },
        ),
    }
}

/// Reads the operator written at `pos`, if there is one.
pub fn read_operator(s: &Vec<char>, pos: usize) -> (operator: Option<(Operator, usize)>)
    requires
        pos <= s.len(),
    ensures
        match operator {
            Some((op, end)) => operator_at(s@, pos as int) == Some((op, end as int)) && pos
                < end <= s.len(),
            None => operator_at(s@, pos as int) is None,
        },
{
    if pos >= s.len() {
        None
    } else if s[pos] == '>' {
        if pos + 1 < s.len() && s[pos + 1] == '=' {
            Some((Operator::GreaterEq, pos + 2))
        } else {
            Some((Operator::Greater, pos + 1))
        }
    } else if s[pos] == '<' {
        if pos + 1 < s.len() && s[pos + 1] == '=' {
            Some((Operator::LessEq, pos + 2))
        } else {
            Some((Operator::Less, pos + 1))
        }
    } else if s[pos] == '=' {
        Some((Operator::Exact, pos + 1))
    } else if s[pos] == '^' {
        Some((Operator::Caret, pos + 1))
    } else if s[pos] == '~' {
        Some((Operator::Tilde, pos + 1))
    } else {
        None
    }
}

/// The edges and the floating mark of an operator before a partial
/// version.
fn operator_edges(operator: Operator, partial: &ReadPartial) -> (edges: (Bound, Bound, bool))
    requires
        partial@.bounded(),
    ensures
        operator_set(operator, partial@) == (ComparatorSetView {
            floating: edges.2,
            lower: edges.0@,
            upper: edges.1@,
        }),
{
    let version = partial.version();
    match operator {
        Operator::Exact => (
            Bound::Lower(Predicate::Including(version.clone())),
            Bound::Upper(Predicate::Including(version)),
            partial.wildcard,
        ),
        Operator::Greater => (Bound::Lower(Predicate::Excluding(version)), Bound::upper(), true),
        Operator::GreaterEq => (Bound::Lower(Predicate::Including(version)), Bound::upper(), true),
        Operator::Less => (Bound::lower(), Bound::Upper(Predicate::Excluding(version)), true),
        Operator::LessEq => (Bound::lower(), Bound::Upper(Predicate::Including(version)), true),
        Operator::Caret => {
            let k: u8 = if version.major > 0 {
                1
            } else if version.minor > 0 {
                2
            } else {
                3
            };
            proof {
                lemma_bounded_version(partial@);
            }
            let top = ceiling_of(&version, k);
            (Bound::Lower(Predicate::Including(version)), Bound::Upper(Predicate::Excluding(top)), true)
        },
        Operator::Tilde => {
            proof {
                lemma_bounded_version(partial@);
            }
            let upper = if partial.numbers.len() >= 2 {
                Bound::Upper(Predicate::Excluding(ceiling_of(&version, 2)))
            } else if partial.numbers.len() == 1 {
                Bound::Upper(Predicate::Excluding(ceiling_of(&version, 1)))
            } else {
                Bound::upper()
            };
            (Bound::Lower(Predicate::Including(version)), upper, true)
        },
    }
}

/// The version of a bounded partial version has no component above
/// [`MAX_SAFE_INTEGER`].
pub proof fn lemma_bounded_version(partial: Partial)
    requires
        partial.bounded(),
    ensures
        partial.version().major <= MAX_SAFE_INTEGER,
        partial.version().minor <= MAX_SAFE_INTEGER,
        partial.version().patch <= MAX_SAFE_INTEGER,
        partial.version().revision <= MAX_SAFE_INTEGER,
{
    if partial.numbers.len() > 0 {
        assert(partial.numbers[0] <= MAX_SAFE_INTEGER);
    }
    if partial.numbers.len() > 1 {
        assert(partial.numbers[1] <= MAX_SAFE_INTEGER);
    }
    if partial.numbers.len() > 2 {
        assert(partial.numbers[2] <= MAX_SAFE_INTEGER);
    }
    if partial.numbers.len() > 3 {
        assert(partial.numbers[3] <= MAX_SAFE_INTEGER);
    }
}

/// The spec form of a partial version that may be missing.
pub open spec fn optional_view(partial: Option<ReadPartial>) -> Option<Partial> {
    match partial {
        Some(p) => Some(p@),
        None => None,
    }
}

/// The predicate of one side of a bracket range.
fn bracket_edge_of(inclusive: bool, partial: &Option<ReadPartial>) -> (predicate: Predicate)
    ensures
        predicate@ == bracket_edge(inclusive, optional_view(*partial)),
{
    match partial {
        None => Predicate::Unbounded,
        Some(p) => {
            if p.numbers.len() == 0 {
                Predicate::Unbounded
            } else if inclusive {
                Predicate::Including(p.version())
            } else {
                Predicate::Excluding(p.version())
            }
        },
    }
}

fn has_wildcard(partial: &Option<ReadPartial>) -> (yes: bool)
    ensures
        yes == (optional_view(*partial) matches Some(p) && p.wildcard),
{
    match partial {
        None => false,
        Some(p) => p.wildcard,
    }
}

/// Reads the partial version written at `pos`, if one starts there.
fn read_optional_partial(text: &str, s: &Vec<char>, pos: usize) -> (partial: Result<
    (Option<ReadPartial>, usize),
    Stop,
>)
    requires
        s@ == text@,
        pos <= s.len(),
    ensures
        match partial {
            Ok((found, end)) => optional_partial_at(s@, pos as int) == Ok::<
                (Option<Partial>, int),
                Failure,
            >((optional_view(found), end as int)) && pos <= end <= s.len(),
            Err(stop) => optional_partial_at(s@, pos as int) == Err::<
                (Option<Partial>, int),
                Failure,
            >(stop@),
        },
{
    if pos < s.len() && (CharClass::Digit.accepts(s[pos]) || wildcard_char(s[pos])) {
        match read_partial(text, s, pos) {
            Err(stop) => Err(stop),
            Ok((partial, end)) => Ok((Some(partial), end)),
        }
    } else {
        Ok((None, pos))
    }
}

/// Reads the closing bracket written at `pos`.
fn read_close(s: &Vec<char>, pos: usize) -> (close: Result<(bool, usize), Stop>)
    requires
        pos <= s.len(),
    ensures
        match close {
            Ok((inclusive, end)) => close_at(s@, pos as int) == Ok::<(bool, int), Failure>(
                (inclusive, end as int),
            ) && pos < end <= s.len(),
            Err(stop) => close_at(s@, pos as int) == Err::<(bool, int), Failure>(stop@),
        },
{
    if pos < s.len() && s[pos] == ']' {
        Ok((true, pos + 1))
    } else if pos < s.len() && s[pos] == ')' {
        Ok((false, pos + 1))
    } else {
        Err(stop_missing(s, pos, Component::ClosingBracket))
    }
}

/// Reads the bracket range written at `pos`.
fn read_bracket(text: &str, s: &Vec<char>, pos: usize) -> (item: Result<
    (ComparatorSet, usize),
    Stop,
>)
    requires
        s@ == text@,
        pos < s.len(),
        s@[pos as int] == '[' || s@[pos as int] == '(',
    ensures
        match item {
            Ok((set, end)) => bracket_at(s@, pos as int) == Ok::<(ComparatorSetView, int), Failure>(
                (set@, end as int),
            ) && pos < end <= s.len() && set@.well_formed(),
            Err(stop) => bracket_at(s@, pos as int) == Err::<(ComparatorSetView, int), Failure>(
                stop@,
            ),
        },
{
    let open_inclusive = s[pos] == '[';
    let start = scan(s, pos + 1, CharClass::Blank);
    match read_optional_partial(text, s, start) {
        Err(stop) => Err(stop),
        Ok((first, p)) => {
            let comma = scan(s, p, CharClass::Blank);
            if comma < s.len() && s[comma] == ',' {
                let next = scan(s, comma + 1, CharClass::Blank);
                match read_optional_partial(text, s, next) {
                    Err(stop) => Err(stop),
                    Ok((second, q)) => {
                        let close = scan(s, q, CharClass::Blank);
                        match read_close(s, close) {
                            Err(stop) => Err(stop),
                            Ok((close_inclusive, end)) => {
                                let floating = has_wildcard(&first) || has_wildcard(&second);
                                check(
                                    Bound::Lower(bracket_edge_of(open_inclusive, &first)),
                                    Bound::Upper(bracket_edge_of(close_inclusive, &second)),
                                    floating,
                                    pos,
                                    end,
                                )
                            },
                        }
                    },
                }
            } else if first.is_none() {
                Err(stop_missing(s, comma, Component::VersionCore))
            } else {
                match read_close(s, comma) {
                    Err(stop) => Err(stop),
                    Ok((close_inclusive, end)) => {
                        let floating = has_wildcard(&first);
                        check(
                            Bound::Lower(bracket_edge_of(open_inclusive, &first)),
                            Bound::Upper(bracket_edge_of(close_inclusive, &first)),
                            floating,
                            pos,
                            end,
                        )
                    },
                }
            }
        },
    }
}

/// Reads the interval written at `pos`.
pub fn read_item(text: &str, s: &Vec<char>, pos: usize) -> (item: Result<
    (ComparatorSet, usize),
    Stop,
>)
    requires
        s@ == text@,
        pos <= s.len(),
    ensures
        match item {
            Ok((set, end)) => item_at(s@, pos as int) == Ok::<(ComparatorSetView, int), Failure>(
                (set@, end as int),
            ) && pos < end <= s.len() && set@.well_formed(),
            Err(stop) => item_at(s@, pos as int) == Err::<(ComparatorSetView, int), Failure>(
                stop@,
            ),
        },
{
    if pos < s.len() && (s[pos] == '[' || s[pos] == '(') {
        return read_bracket(text, s, pos);
    }
    match read_operator(s, pos) {
        Some((operator, p)) => {
            let start = scan(s, p, CharClass::Blank);
            match read_partial(text, s, start) {
                Err(stop) => Err(stop),
                Ok((partial, end)) => {
                    let edges = operator_edges(operator, &partial);
                    check(edges.0, edges.1, edges.2, pos, end)
                },
            }
        },
        None => match read_partial(text, s, pos) {
            Err(stop) => Err(stop),
            Ok((first, end)) => {
                let dash = scan(s, end, CharClass::Blank);
                if end < dash && dash < s.len() && s[dash] == '-' && scan(
                    s,
                    dash + 1,
                    CharClass::Blank,
                ) > dash + 1 {
                    let start = scan(s, dash + 1, CharClass::Blank);
                    match read_partial(text, s, start) {
                        Err(stop) => Err(stop),
                        Ok((second, end)) => check(
                            Bound::Lower(Predicate::Including(first.version())),
                            second.rounded_upper(),
                            first.wildcard || second.wildcard,
                            pos,
                            end,
                        ),
                    }
                } else {
                    check(
                        Bound::Lower(Predicate::Including(first.version())),
                        first.rounded_upper(),
                        first.wildcard,
                        pos,
                        end,
                    )
                }
            },
        },
    }
}

impl Range {
    /// Reads a range from its text.
    ///
    /// Where reading fails, the error holds the text, the kind of the
    /// failure and its offset. Only ASCII characters stand before that
    /// offset, so it counts bytes as well as characters.
    pub fn parse(input: &str) -> (range: Result<Range, SemverError>)
        ensures
            match range {
                Ok(r) => parse_range(input@) == Ok::<RangeView, Failure>(r@) && r@.well_formed(),
                Err(e) => parse_range(input@) matches Err(failure) && e@ == error_of(
                    input@,
                    failure,
                ) && stopped(input@, 0, failure),
            },
    {
        proof {
            lemma_range_failure_offset(input@);
        }
        let s = chars_of(input);
        let mut found: Vec<ComparatorSet> = Vec::new();
        let mut at: usize = 0;
        assert(comparators_view(found@) =~= Seq::<ComparatorSetView>::empty());
        loop
            invariant_except_break
                items_at(s@, 0, Seq::empty()) == items_at(
                    s@,
                    at as int,
                    comparators_view(found@),
                ),
            invariant
                s@ == input@,
                at <= s.len(),
                all_well_formed(comparators_view(found@)),
                parse_range(input@) matches Err(failure) ==> stopped(input@, 0, failure),
            ensures
                found@.len() > 0,
                items_at(s@, 0, Seq::empty()) == Ok::<Seq<ComparatorSetView>, Failure>(
                    comparators_view(found@),
                ),
            decreases s.len() - at,
        {
            proof {
                reveal(items_at);
            }
            let start = scan(&s, at, CharClass::Blank);
            match read_item(input, &s, start) {
                Err(stop) => {
                    return Err(SemverError::new(input, stop.offset, stop.kind));
                },
                Ok((set, end)) => {
                    let ghost before = comparators_view(found@);
                    found.push(set);
                    assert(comparators_view(found@) =~= before.push(set@));
                    let after = scan(&s, end, CharClass::Blank);
                    if after >= s.len() {
                        break ;
                    } else if after + 1 < s.len() && s[after] == '|' && s[after + 1] == '|' {
                        at = after + 2;
                    } else {
                        return Err(SemverError::new(input, after, SemverErrorKind::Other));
                    }
                },
            }
        }
        Ok(Range::from_comparators(found).unwrap())
    }
}

impl std::str::FromStr for Range {
    type Err = SemverError;

    fn from_str(s: &str) -> (range: Result<Self, Self::Err>)
        ensures
            match range {
                Ok(r) => parse_range(s@) == Ok::<RangeView, Failure>(r@) && r@.well_formed(),
                Err(e) => parse_range(s@) matches Err(failure) && e@ == error_of(s@, failure),
            },
    {
        Range::parse(s)
    }
}

/// The text of a predicate's version: nothing where there is none.
pub open spec fn edge_text(predicate: PredicateView) -> Seq<char> {
    match predicate {
        PredicateView::Excluding(v) => version_text(v),
        PredicateView::Including(v) => version_text(v),
        PredicateView::Unbounded => Seq::empty(),
    }
}

/// Whether an interval holds one version only: both edges include, and
/// name equal versions.
pub open spec fn single_version(c: ComparatorSetView) -> bool {
    match (c.lower.predicate(), c.upper.predicate()) {
        (PredicateView::Including(v), PredicateView::Including(w)) => version_eq(v, w),
        _ => false,
    }
}

/// The text of an interval: `*` where it has no edge; `[v]` where it
/// holds one version only; otherwise the versions of its edges, separated
/// by a comma, between brackets, with `[` and `]` for an edge that
/// includes its version and `(` and `)` for one that excludes it or is
/// missing.
pub open spec fn comparator_text(c: ComparatorSetView) -> Seq<char> {
    let lower = c.lower.predicate();
    let upper = c.upper.predicate();
    if lower is Unbounded && upper is Unbounded {
        seq!['*']
    } else if single_version(c) {
        seq!['['] + (edge_text(lower) + seq![']'])
    } else {
        seq![
            if lower is Including {
                '['
            } else {
                '('
            },
        ] + (edge_text(lower) + (seq![','] + (edge_text(upper) + seq![
            if upper is Including {
                ']'
            } else {
                ')'
            },
        ])))
    }
}

/// The text of the intervals of `list` from index `i` on, with `||`
/// between them.
pub open spec fn range_text_from(list: Seq<ComparatorSetView>, i: int) -> Seq<char>
    decreases list.len() - i,
{
    if i < 0 || i >= list.len() {
        Seq::empty()
    } else if i == 0 {
        comparator_text(list[i]) + range_text_from(list, i + 1)
    } else {
        seq!['|', '|'] + (comparator_text(list[i]) + range_text_from(list, i + 1))
    }
}

/// The text of a range: the texts of its intervals with `||` between
/// them.
pub open spec fn range_text(range: RangeView) -> Seq<char> {
    range_text_from(range.comparators, 0)
}

/// Appends the version that a predicate names, if it names one.
fn push_edge(out: &mut String, predicate: &Predicate)
    ensures
        final(out)@ == old(out)@ + edge_text(predicate@),
{
    match predicate {
        Predicate::Excluding(v) => {
            let text = v.to_string();
            out.append(text.as_str());
        },
        Predicate::Including(v) => {
            let text = v.to_string();
            out.append(text.as_str());
        },
        Predicate::Unbounded => {
            assert(out@ =~= out@ + Seq::<char>::empty());
        },
    }
}

fn is_including(predicate: &Predicate) -> (yes: bool)
    ensures
        yes == (predicate@ is Including),
{
    match predicate {
        Predicate::Including(_) => true,
        _ => false,
    }
}

fn is_unbounded(predicate: &Predicate) -> (yes: bool)
    ensures
        yes == (predicate@ is Unbounded),
{
    match predicate {
        Predicate::Unbounded => true,
        _ => false,
    }
}

fn edge_of(bound: &Bound) -> (predicate: &Predicate)
    ensures
        predicate@ == bound@.predicate(),
{
    match bound {
        Bound::Lower(p) => p,
        Bound::Upper(p) => p,
    }
}

fn names_one_version(lower: &Predicate, upper: &Predicate) -> (yes: bool)
    ensures
        yes == match (lower@, upper@) {
            (PredicateView::Including(v), PredicateView::Including(w)) => version_eq(v, w),
            _ => false,
        },
{
    match (lower, upper) {
        (Predicate::Including(v), Predicate::Including(w)) => v.sign(w) == 0,
        _ => false,
    }
}

impl ComparatorSet {
    /// The text of the interval.
    pub fn to_string(&self) -> (text: String)
        ensures
            text@ == comparator_text(self@),
    {
        let lower = edge_of(self.lower());
        let upper = edge_of(self.upper());
        proof {
            reveal_strlit("*");
            reveal_strlit("[");
            reveal_strlit("]");
            reveal_strlit("(");
            reveal_strlit(")");
            reveal_strlit(",");
        }
        assert("*"@ =~= seq!['*'] && "["@ =~= seq!['['] && "]"@ =~= seq![']']);
        assert("("@ =~= seq!['('] && ")"@ =~= seq![')'] && ","@ =~= seq![',']);
        if is_unbounded(lower) && is_unbounded(upper) {
            return String::from_str("*");
        }
        let mut text = String::new();
        if names_one_version(lower, upper) {
            text.append("[");
            push_edge(&mut text, lower);
            text.append("]");
            assert(text@ =~= comparator_text(self@));
            return text;
        }
        if is_including(lower) {
            text.append("[");
        } else {
            text.append("(");
        }
        push_edge(&mut text, lower);
        text.append(",");
        push_edge(&mut text, upper);
        if is_including(upper) {
            text.append("]");
        } else {
            text.append(")");
        }
        assert(text@ =~= comparator_text(self@));
        text
    }
}

impl Range {
    /// The text of the range.
    pub fn to_string(&self) -> (text: String)
        ensures
            text@ == range_text(self@),
    {
        let list = self.comparators();
        let ghost views = comparators_view(list@);
        let mut text = String::new();
        let mut i: usize = 0;
        assert(text@ + range_text_from(views, 0) =~= range_text_from(views, 0));
        while i < list.len()
            invariant
                i <= list.len(),
                views == comparators_view(list@),
                text@ + range_text_from(views, i as int) == range_text_from(views, 0),
            decreases list.len() - i,
        {
            let ghost before = text@;
            if i > 0 {
                proof {
                    reveal_strlit("||");
                }
                text.append("||");
                assert("||"@ =~= seq!['|', '|']);
            }
            let item = list[i].to_string();
            text.append(item.as_str());
            assert(text@ + range_text_from(views, i + 1) =~= before + range_text_from(
                views,
                i as int,
            ));
            i = i + 1;
        }
        assert(range_text_from(views, i as int) =~= Seq::<char>::empty());
        assert(text@ =~= range_text_from(views, 0));
        text
    }
}

/// Where numbers alone are written, reading components gives the same
/// numbers, and no wildcard.
pub proof fn lemma_components_follow_numbers(s: Seq<char>, pos: int, found: Seq<u64>)
    requires
        0 <= pos <= s.len(),
        found.len() < 4,
        numbers_at(s, pos, found) is Ok,
    ensures
        numbers_at(s, pos, found) matches Ok((numbers, end)) && components_at(
            s,
            pos,
            found,
            found.len() as int,
            false,
        ) == Ok::<((Seq<u64>, bool), int), Failure>(((numbers, false), end)),
    decreases 4 - found.len(),
{
    reveal(numbers_at);
    reveal(components_at);
    lemma_span_end(s, pos, CharClass::Digit);
    match number_at(s, pos) {
        Ok((n, end)) => {
            assert(CharClass::Digit.holds(s[pos]));
            let more = found.push(n);
            if more.len() < 4 && 0 <= end < s.len() && s[end] == '.' {
                lemma_components_follow_numbers(s, end + 1, more);
            }
        },
        Err(_) => {},
    }
}

/// The interval that holds the versions equal to `v`, and no others.
pub open spec fn exact_set(v: VersionView) -> ComparatorSetView {
    ComparatorSetView { floating: false, lower: lower_including(v), upper: upper_including(v) }
}

/// The range that `=` and the text of a printable version spell holds
/// that version: it is the one interval from the version to itself.
pub proof fn lemma_exact_range_holds(v: VersionView)
    requires
        printable_version(v),
    ensures
        parse_range(seq!['='] + version_text(v)) matches Ok(range) && range.satisfies(v)
            && range.well_formed() && range.comparators == seq![exact_set(v)],
{
    let s = seq!['='] + version_text(v);
    let extras = Extras { pre_release: v.pre_release, build: v.build };
    let partial = Partial { numbers: written_numbers(v), wildcard: false, extras };
    assert(s.skip(1) =~= version_text(v));
    lemma_version_reads_back(s, 1, v);
    lemma_components_follow_numbers(s, 1, Seq::empty());
    assert(partial_at(s, 1) == Ok::<(Partial, int), Failure>((partial, s.len() as int)));
    assert(partial.version() == v);
    crate::text::lemma_span_end_is(s, 0, 0, CharClass::Blank);
    crate::text::lemma_span_end_is(s, 1, 1, CharClass::Blank);
    crate::text::lemma_span_end_is(s, s.len() as int, s.len() as int, CharClass::Blank);
    let set = operator_set(Operator::Exact, partial);
    assert(set == exact_set(v));
    crate::version::lemma_version_order_reflexive(v);
    assert(set.well_formed());
    assert(operator_at(s, 0) == Some((Operator::Exact, 1int)));
    assert(item_at(s, 0) == Ok::<(ComparatorSetView, int), Failure>((set, s.len() as int)));
    reveal(items_at);
    let list = Seq::<ComparatorSetView>::empty().push(set);
    assert(items_at(s, 0, Seq::empty()) == Ok::<Seq<ComparatorSetView>, Failure>(list));
    assert(list =~= seq![exact_set(v)]);
    assert(list[0].satisfies(v));
}

/// The ceiling of a version lies at or below every version with the same
/// four components: below the release and below each of its
/// pre-releases. An upper edge that excludes it excludes them all.
pub proof fn lemma_ceiling_is_floor(v: VersionView, k: int, other: VersionView)
    requires
        other.major == ceiling(v, k).major,
        other.minor == ceiling(v, k).minor,
        other.patch == ceiling(v, k).patch,
        other.revision == ceiling(v, k).revision,
    ensures
        version_order(ceiling(v, k), other) <= 0,
{
    let floor = ceiling(v, k).pre_release;
    assert(floor.len() == 1 && floor[0] == IdentifierView::Numeric(0));
    if other.pre_release.len() > 0 {
        reveal_with_fuel(identifiers_order_from, 2);
    }
}

/// A version whose components are not above [`MAX_SAFE_INTEGER`] lies
/// below its ceilings.
pub proof fn lemma_ceiling_is_above(v: VersionView, k: int)
    requires
        v.major <= MAX_SAFE_INTEGER,
        v.minor <= MAX_SAFE_INTEGER,
        v.patch <= MAX_SAFE_INTEGER,
    ensures
        version_order(v, ceiling(v, k)) < 0,
{
}

/// An interval that is written without a second version is well formed:
/// a partial version alone, or one after an operator, always names an
/// interval.
pub proof fn lemma_single_version_sets_well_formed(operator: Operator, partial: Partial)
    requires
        partial.bounded(),
    ensures
        plain_set(partial).well_formed(),
        operator_set(operator, partial).well_formed(),
{
    let v = partial.version();
    lemma_bounded_version(partial);
    crate::version::lemma_version_order_reflexive(v);
    lemma_ceiling_is_above(v, 1);
    lemma_ceiling_is_above(v, 2);
    lemma_ceiling_is_above(v, 3);
}

} // verus!
