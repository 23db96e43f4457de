//! Versions as text: reading them and writing them.

use vstd::prelude::*;
use vstd::string::StringExecFns;
use crate::error::{SemverError, SemverErrorKind, SemverErrorView};
use crate::grammar::{
    extras_at, identifier_of, identifiers_at, lemma_extras_at_progress,
    lemma_number_at_progress, number_at, passed, read_extras, read_number,
    stopped, Extras, Failure, MAX_LENGTH, MAX_SAFE_INTEGER,
};
use crate::error::Component;
use crate::identifier::{identifiers_view, Identifier, IdentifierView};
use crate::text::{
    all_of, chars_of, decimal_text, lemma_decimal_text, lemma_span_end,
    lemma_span_end_is,
    push_decimal, CharClass,
};
use crate::version::{lemma_version_order_reflexive, version_eq, Version, VersionView};

verus! {

/// The numbers written at `pos`, after those already `found`, and where
/// they end: up to four in all, separated by dots.
#[verifier::opaque]
pub open spec fn numbers_at(s: Seq<char>, pos: int, found: Seq<u64>) -> Result<
    (Seq<u64>, int),
    Failure,
>
    decreases 4 - found.len(),
{
    match number_at(s, pos) {
        Err(failure) => Err(failure),
        Ok((n, end)) => {
            let found = found.push(n);
            if found.len() < 4 && 0 <= end < s.len() && s[end] == '.' {
                numbers_at(s, end + 1, found)
            } else {
                Ok((found, end))
            }
        },
    }
}

/// The number at index `i` of `numbers`, or 0 where there is none.
pub open spec fn number_or_zero(numbers: Seq<u64>, i: int) -> u64 {
    if 0 <= i < numbers.len() {
        numbers[i]
    } else {
        0
    }
}

/// The version that the given numbers and lists make up. Numbers that are
/// not given are 0.
pub open spec fn version_of(numbers: Seq<u64>, extras: Extras) -> VersionView {
    VersionView {
        major: number_or_zero(numbers, 0),
        minor: number_or_zero(numbers, 1),
        patch: number_or_zero(numbers, 2),
        revision: number_or_zero(numbers, 3),
        build: extras.build,
        pre_release: extras.pre_release,
    }
}

/// What reading `s` as a version gives: the version, or why and where
/// reading stopped.
///
/// A version is one to four numbers separated by dots, then a pre-release
/// list after `-` if there is one, then a build list after `+` if there is
/// one, and nothing more. The text may not be longer than [`MAX_LENGTH`]
/// characters.
pub open spec fn parse_version(s: Seq<char>) -> Result<VersionView, Failure> {
    if s.len() > MAX_LENGTH {
        Err(Failure { offset: 0, kind: SemverErrorKind::MaxLengthError })
    } else {
        match numbers_at(s, 0, Seq::empty()) {
            Err(failure) => Err(failure),
            Ok((numbers, p)) => match extras_at(s, p) {
                Err(failure) => Err(failure),
                Ok((extras, q)) => {
                    if q < s.len() {
                        Err(Failure { offset: q, kind: SemverErrorKind::Other })
                    } else {
                        Ok(version_of(numbers, extras))
                    }
                },
            },
        }
    }
}

/// The error that reports `failure` for the text `input`.
pub open spec fn error_of(input: Seq<char>, failure: Failure) -> SemverErrorView {
    SemverErrorView { input, offset: failure.offset as usize, kind: failure.kind }
}

/// The text of an identifier: a number in decimal, a text as it is.
pub open spec fn identifier_text(identifier: IdentifierView) -> Seq<char> {
    match identifier {
        IdentifierView::Numeric(n) => decimal_text(n as nat),
        IdentifierView::AlphaNumeric(text) => text,
    }
}

/// The text of the identifiers of `list` from index `i` on, each after
/// its mark: `lead` before the first of the list, a dot before the others.
pub open spec fn list_text_from(lead: char, list: Seq<IdentifierView>, i: int) -> Seq<char>
    decreases list.len() - i,
{
    if i < 0 || i >= list.len() {
        Seq::empty()
    } else {
        seq![
            if i == 0 {
                lead
            } else {
                '.'
            },
        ] + (identifier_text(list[i]) + list_text_from(lead, list, i + 1))
    }
}

/// The text of a revision: nothing where it is 0.
pub open spec fn revision_text(revision: u64) -> Seq<char> {
    if revision > 0 {
        seq!['.'] + decimal_text(revision as nat)
    } else {
        Seq::empty()
    }
}

/// The text that follows the patch number of a version.
pub open spec fn tail_text(v: VersionView) -> Seq<char> {
    revision_text(v.revision) + (list_text_from('-', v.pre_release, 0) + list_text_from(
        '+',
        v.build,
        0,
    ))
}

/// The canonical text of a version: major, minor and patch separated by
/// dots; the revision after a dot where it is not 0; the pre-release list
/// after `-` and the build list after `+`, each joined by dots, where they
/// are not empty.
#[verifier::opaque]
pub open spec fn version_text(v: VersionView) -> Seq<char> {
    decimal_text(v.major as nat) + (seq!['.'] + (decimal_text(v.minor as nat) + (seq!['.'] + (
        decimal_text(v.patch as nat) + tail_text(v)))))
}

/// An identifier that reads back as itself: a number, or a text that is
/// made of letters, digits and hyphens, is not empty, and does not read
/// as a number.
pub open spec fn readable_identifier(identifier: IdentifierView) -> bool {
    match identifier {
        IdentifierView::Numeric(_) => true,
        IdentifierView::AlphaNumeric(text) => {
            &&& text.len() > 0
            &&& all_of(text, CharClass::Token)
            &&& identifier_of(text) == identifier
        },
    }
}

/// Every identifier of `list` is readable.
pub open spec fn readable_identifiers(list: Seq<IdentifierView>) -> bool {
    forall|i: int| 0 <= i < list.len() ==> readable_identifier(#[trigger] list[i])
}

/// A version whose text says all of it: no component is above
/// [`MAX_SAFE_INTEGER`], and every identifier is readable.
pub open spec fn printable_version(v: VersionView) -> bool {
    &&& v.major <= MAX_SAFE_INTEGER
    &&& v.minor <= MAX_SAFE_INTEGER
    &&& v.patch <= MAX_SAFE_INTEGER
    &&& v.revision <= MAX_SAFE_INTEGER
    &&& readable_identifiers(v.pre_release)
    &&& readable_identifiers(v.build)
}

/// A version that reads back as itself: it is printable, and its text has
/// no more than [`MAX_LENGTH`] characters.
pub open spec fn readable_version(v: VersionView) -> bool {
    printable_version(v) && version_text(v).len() <= MAX_LENGTH
}

/// Whether `rest` is empty or starts with a character that is not of
/// `class` and is not `other`.
pub open spec fn stops(rest: Seq<char>, class: CharClass, other: char) -> bool {
    rest.len() == 0 || (!class.holds(rest[0]) && rest[0] != other)
}

/// Where a text goes on with `head` and then `rest` from `pos`, it holds
/// the characters of `head` there and goes on with `rest` after them.
pub proof fn lemma_skip_past(s: Seq<char>, pos: int, head: Seq<char>, rest: Seq<char>)
    requires
        0 <= pos <= s.len(),
        s.skip(pos) == head + rest,
    ensures
        pos + head.len() + rest.len() == s.len(),
        forall|i: int| 0 <= i < head.len() ==> s[pos + i] == head[i],
        s.subrange(pos, pos + head.len()) == head,
        s.skip(pos + head.len()) == rest,
        rest.len() > 0 ==> s[pos + head.len()] == rest[0],
{
    assert(s.skip(pos).len() == head.len() + rest.len());
    assert forall|i: int| 0 <= i < head.len() implies s[pos + i] == head[i] by {
        assert(s[pos + i] == s.skip(pos)[i]);
        assert((head + rest)[i] == head[i]);
    }
    assert(s.subrange(pos, pos + head.len()) =~= head);
    assert forall|i: int| 0 <= i < rest.len() implies s.skip(pos + head.len())[i] == rest[i] by {
        assert(s[pos + head.len() + i] == s.skip(pos)[head.len() + i]);
        assert((head + rest)[head.len() + i] == rest[i]);
    }
    assert(s.skip(pos + head.len()) =~= rest);
    if rest.len() > 0 {
        assert(s[pos + head.len()] == s.skip(pos + head.len())[0]);
    }
}

/// A number in decimal, followed by something that is not a digit, reads
/// as that number.
pub proof fn lemma_number_reads_back(s: Seq<char>, pos: int, n: u64, rest: Seq<char>)
    requires
        0 <= pos <= s.len(),
        s.skip(pos) == decimal_text(n as nat) + rest,
        rest.len() == 0 || !CharClass::Digit.holds(rest[0]),
        n <= MAX_SAFE_INTEGER,
    ensures
        number_at(s, pos) == Ok::<(u64, int), Failure>(
            (n, pos + decimal_text(n as nat).len()),
        ),
        pos + decimal_text(n as nat).len() + rest.len() == s.len(),
        s.skip(pos + decimal_text(n as nat).len()) == rest,
        rest.len() > 0 ==> s[pos + decimal_text(n as nat).len()] == rest[0],
{
    let text = decimal_text(n as nat);
    let end = pos + text.len();
    lemma_decimal_text(n as nat);
    lemma_skip_past(s, pos, text, rest);
    assert forall|i: int| pos <= i < end implies CharClass::Digit.holds(#[trigger] s[i]) by {
        assert(s[pos + (i - pos)] == text[i - pos]);
    }
    lemma_span_end_is(s, pos, end, CharClass::Digit);
}

/// A number that is followed by a dot, where fewer than four numbers have
/// been read with it, is followed by another number.
pub proof fn lemma_numbers_go_on(
    s: Seq<char>,
    pos: int,
    found: Seq<u64>,
    n: u64,
    rest: Seq<char>,
)
    requires
        0 <= pos <= s.len(),
        s.skip(pos) == decimal_text(n as nat) + (seq!['.'] + rest),
        n <= MAX_SAFE_INTEGER,
        found.len() + 1 < 4,
    ensures
        pos + decimal_text(n as nat).len() + 1 + rest.len() == s.len(),
        numbers_at(s, pos, found) == numbers_at(
            s,
            pos + decimal_text(n as nat).len() + 1,
            found.push(n),
        ),
        s.skip(pos + decimal_text(n as nat).len() + 1) == rest,
{
    reveal(numbers_at);
    let dotted = seq!['.'] + rest;
    assert(dotted[0] == '.');
    lemma_number_reads_back(s, pos, n, dotted);
    let end = pos + decimal_text(n as nat).len();
    lemma_skip_past(s, end, seq!['.'], rest);
}

/// A number that is followed by no dot, or is the fourth, is the last.
pub proof fn lemma_numbers_end(s: Seq<char>, pos: int, found: Seq<u64>, n: u64, rest: Seq<char>)
    requires
        0 <= pos <= s.len(),
        s.skip(pos) == decimal_text(n as nat) + rest,
        n <= MAX_SAFE_INTEGER,
        rest.len() == 0 || !CharClass::Digit.holds(rest[0]),
        found.len() + 1 >= 4 || rest.len() == 0 || rest[0] != '.',
    ensures
        pos + decimal_text(n as nat).len() + rest.len() == s.len(),
        numbers_at(s, pos, found) == Ok::<(Seq<u64>, int), Failure>(
            (found.push(n), pos + decimal_text(n as nat).len()),
        ),
        s.skip(pos + decimal_text(n as nat).len()) == rest,
{
    reveal(numbers_at);
    lemma_number_reads_back(s, pos, n, rest);
}

/// The text of a list of readable identifiers, followed by something that
/// cannot continue it, reads as that list.
pub proof fn lemma_identifiers_read_back(
    s: Seq<char>,
    pos: int,
    lead: char,
    list: Seq<IdentifierView>,
    k: int,
    found: Seq<IdentifierView>,
    rest: Seq<char>,
    component: Component,
)
    requires
        0 <= pos <= s.len(),
        0 <= k < list.len(),
        readable_identifiers(list),
        s.skip(pos) == identifier_text(list[k]) + (list_text_from(lead, list, k + 1) + rest),
        stops(rest, CharClass::Token, '.'),
    ensures
        identifiers_at(s, pos, found, component) == Ok::<(Seq<IdentifierView>, int), Failure>(
            (found + list.skip(k), s.len() - rest.len()),
        ),
    decreases list.len() - k,
{
    let text = identifier_text(list[k]);
    let after = list_text_from(lead, list, k + 1) + rest;
    let end = pos + text.len();
    assert(readable_identifier(list[k]));
    match list[k] {
        IdentifierView::Numeric(n) => {
            lemma_decimal_text(n as nat);
        },
        IdentifierView::AlphaNumeric(_) => {},
    }
    assert(text.len() > 0);
    assert(all_of(text, CharClass::Token));
    assert(identifier_of(text) == list[k]);
    assert(s.skip(pos).len() == text.len() + after.len());
    assert forall|i: int| pos <= i < end implies CharClass::Token.holds(#[trigger] s[i]) by {
        assert(s[i] == s.skip(pos)[i - pos]);
        assert(s.skip(pos)[i - pos] == text[i - pos]);
    }
    if end < s.len() {
        assert(s[end] == s.skip(pos)[end - pos]);
        assert(s.skip(pos)[end - pos] == after[0]);
    }
    if k + 1 < list.len() {
        let deeper = identifier_text(list[k + 1]) + list_text_from(lead, list, k + 2);
        assert(list_text_from(lead, list, k + 1) == seq!['.'] + deeper);
        assert(after[0] == '.');
    } else {
        assert(list_text_from(lead, list, k + 1) =~= Seq::<char>::empty());
        assert(after =~= rest);
    }
    lemma_span_end_is(s, pos, end, CharClass::Token);
    assert(s.subrange(pos, end) =~= text) by {
        assert forall|i: int| 0 <= i < text.len() implies s.subrange(pos, end)[i] == text[i] by {
            assert(s[pos + i] == s.skip(pos)[i]);
        }
    }
    let found_next = found.push(list[k]);
    if k + 1 < list.len() {
        let deeper = identifier_text(list[k + 1]) + list_text_from(lead, list, k + 2);
        assert(s.skip(end + 1) =~= identifier_text(list[k + 1]) + (list_text_from(
            lead,
            list,
            k + 2,
        ) + rest)) by {
            let target = identifier_text(list[k + 1]) + (list_text_from(lead, list, k + 2)
                + rest);
            assert(s.skip(end + 1).len() == target.len());
            assert forall|i: int| 0 <= i < target.len() implies s.skip(end + 1)[i]
                == target[i] by {
                assert(s[end + 1 + i] == s.skip(pos)[text.len() + 1 + i]);
                assert(after[1 + i] == target[i]);
            }
        }
        lemma_identifiers_read_back(s, end + 1, lead, list, k + 1, found_next, rest, component);
        assert(found_next + list.skip(k + 1) =~= found + list.skip(k));
    } else {
        assert(found_next =~= found + list.skip(k));
        assert(end == s.len() - rest.len());
    }
}

/// The text of a list, after its mark and followed by something that
/// cannot continue it, reads as that list.
pub proof fn lemma_list_reads_back(
    s: Seq<char>,
    pos: int,
    lead: char,
    list: Seq<IdentifierView>,
    rest: Seq<char>,
    component: Component,
)
    requires
        0 <= pos <= s.len(),
        list.len() > 0,
        readable_identifiers(list),
        s.skip(pos) == list_text_from(lead, list, 0) + rest,
        stops(rest, CharClass::Token, '.'),
    ensures
        pos < s.len(),
        s[pos] == lead,
        identifiers_at(s, pos + 1, Seq::empty(), component) == Ok::<
            (Seq<IdentifierView>, int),
            Failure,
        >((list, s.len() - rest.len())),
        s.skip(s.len() - rest.len()) == rest,
{
    let inner = identifier_text(list[0]) + list_text_from(lead, list, 1);
    assert(list_text_from(lead, list, 0) == seq![lead] + inner);
    assert(s.skip(pos).len() == 1 + inner.len() + rest.len());
    assert(s[pos] == s.skip(pos)[0]);
    assert(s.skip(pos + 1) =~= identifier_text(list[0]) + (list_text_from(lead, list, 1) + rest))
        by {
        let target = identifier_text(list[0]) + (list_text_from(lead, list, 1) + rest);
        assert(s.skip(pos + 1).len() == target.len());
        assert forall|i: int| 0 <= i < target.len() implies s.skip(pos + 1)[i] == target[i] by {
            assert(s[pos + 1 + i] == s.skip(pos)[1 + i]);
        }
    }
    lemma_identifiers_read_back(s, pos + 1, lead, list, 0, Seq::empty(), rest, component);
    assert(Seq::<IdentifierView>::empty() + list.skip(0) =~= list);
    assert(s.skip(s.len() - rest.len()) =~= rest) by {
        assert forall|i: int| 0 <= i < rest.len() implies s.skip(s.len() - rest.len())[i]
            == rest[i] by {
            assert(s[s.len() - rest.len() + i] == s.skip(pos)[1 + inner.len() + i]);
        }
    }
}

/// The text of the lists of a version, at the end of a text, reads as
/// those lists.
pub proof fn lemma_extras_read_back(
    s: Seq<char>,
    pos: int,
    pre_release: Seq<IdentifierView>,
    build: Seq<IdentifierView>,
)
    requires
        0 <= pos <= s.len(),
        readable_identifiers(pre_release),
        readable_identifiers(build),
        s.skip(pos) == list_text_from('-', pre_release, 0) + list_text_from('+', build, 0),
    ensures
        extras_at(s, pos) == Ok::<(Extras, int), Failure>(
            (Extras { pre_release, build }, s.len() as int),
        ),
{
    let pre_text = list_text_from('-', pre_release, 0);
    let build_text = list_text_from('+', build, 0);
    lemma_skip_past(s, pos, pre_text, build_text);
    let p = pos + pre_text.len();
    lemma_lists_start(Seq::empty(), build);
    assert(list_text_from('-', Seq::<IdentifierView>::empty(), 0) =~= Seq::<char>::empty());
    assert(Seq::<char>::empty() + build_text =~= build_text);
    assert(build_text.len() == 0 || build_text[0] == '+');
    if build.len() == 0 {
        assert(build_text =~= Seq::<char>::empty());
        assert(build =~= Seq::<IdentifierView>::empty());
    }
    if pre_release.len() == 0 {
        assert(pre_release =~= Seq::<IdentifierView>::empty());
    }
    if pre_release.len() > 0 {
        lemma_list_reads_back(s, pos, '-', pre_release, build_text, Component::PreRelease);
    } else {
        assert(pre_text =~= Seq::<char>::empty());
    }
    assert(0 <= p <= s.len());
    assert(s.skip(p) == build_text);
    if build.len() > 0 {
        assert(s.skip(p) =~= build_text + Seq::<char>::empty());
        lemma_list_reads_back(s, p, '+', build, Seq::empty(), Component::Build);
    } else {
        assert(p == s.len());
    }
}

/// Two numbers with a dot after each are read, and reading goes on after
/// the second dot.
pub proof fn lemma_two_numbers(s: Seq<char>, pos: int, a: u64, b: u64, rest: Seq<char>)
    requires
        0 <= pos <= s.len(),
        a <= MAX_SAFE_INTEGER,
        b <= MAX_SAFE_INTEGER,
        s.skip(pos) == decimal_text(a as nat) + (seq!['.'] + (decimal_text(b as nat) + (seq![
            '.',
        ] + rest))),
    ensures
        pos <= s.len() - rest.len(),
        numbers_at(s, pos, Seq::empty()) == numbers_at(s, s.len() - rest.len(), seq![a, b]),
        s.skip(s.len() - rest.len()) == rest,
{
    let none = Seq::<u64>::empty();
    lemma_numbers_go_on(s, pos, none, a, decimal_text(b as nat) + (seq!['.'] + rest));
    let p1: int = pos + decimal_text(a as nat).len() + 1;
    lemma_numbers_go_on(s, p1, none.push(a), b, rest);
    assert(none.push(a).push(b) =~= seq![a, b]);
}

/// Three numbers separated by dots, followed by something that is no
/// digit and no dot, read as three numbers.
pub proof fn lemma_three_numbers(s: Seq<char>, pos: int, a: u64, b: u64, c: u64, rest: Seq<char>)
    requires
        0 <= pos <= s.len(),
        a <= MAX_SAFE_INTEGER,
        b <= MAX_SAFE_INTEGER,
        c <= MAX_SAFE_INTEGER,
        s.skip(pos) == decimal_text(a as nat) + (seq!['.'] + (decimal_text(b as nat) + (seq![
            '.',
        ] + (decimal_text(c as nat) + rest)))),
        stops(rest, CharClass::Digit, '.'),
    ensures
        pos <= s.len() - rest.len(),
        numbers_at(s, pos, Seq::empty()) == Ok::<(Seq<u64>, int), Failure>(
            (seq![a, b, c], s.len() - rest.len()),
        ),
        s.skip(s.len() - rest.len()) == rest,
{
    let from_c = decimal_text(c as nat) + rest;
    lemma_two_numbers(s, pos, a, b, from_c);
    lemma_numbers_end(s, s.len() - from_c.len(), seq![a, b], c, rest);
    assert(seq![a, b].push(c) =~= seq![a, b, c]);
}

/// Four numbers separated by dots, followed by something that is no
/// digit, read as four numbers.
pub proof fn lemma_four_numbers(
    s: Seq<char>,
    pos: int,
    a: u64,
    b: u64,
    c: u64,
    d: u64,
    rest: Seq<char>,
)
    requires
        0 <= pos <= s.len(),
        a <= MAX_SAFE_INTEGER,
        b <= MAX_SAFE_INTEGER,
        c <= MAX_SAFE_INTEGER,
        d <= MAX_SAFE_INTEGER,
        s.skip(pos) == decimal_text(a as nat) + (seq!['.'] + (decimal_text(b as nat) + (seq![
            '.',
        ] + (decimal_text(c as nat) + (seq!['.'] + (decimal_text(d as nat) + rest)))))),
        rest.len() == 0 || !CharClass::Digit.holds(rest[0]),
    ensures
        pos <= s.len() - rest.len(),
        numbers_at(s, pos, Seq::empty()) == Ok::<(Seq<u64>, int), Failure>(
            (seq![a, b, c, d], s.len() - rest.len()),
        ),
        s.skip(s.len() - rest.len()) == rest,
{
    let from_d = decimal_text(d as nat) + rest;
    let from_c = decimal_text(c as nat) + (seq!['.'] + from_d);
    lemma_two_numbers(s, pos, a, b, from_c);
    lemma_numbers_go_on(s, s.len() - from_c.len(), seq![a, b], c, from_d);
    assert(seq![a, b].push(c) =~= seq![a, b, c]);
    lemma_numbers_end(s, s.len() - from_d.len(), seq![a, b, c], d, rest);
    assert(seq![a, b, c].push(d) =~= seq![a, b, c, d]);
}

/// The numbers that the text of a version gives: the revision only where
/// it is not 0.
pub open spec fn written_numbers(v: VersionView) -> Seq<u64> {
    if v.revision > 0 {
        seq![v.major, v.minor, v.patch, v.revision]
    } else {
        seq![v.major, v.minor, v.patch]
    }
}

/// The text of the lists of a version.
pub open spec fn lists_text(v: VersionView) -> Seq<char> {
    list_text_from('-', v.pre_release, 0) + list_text_from('+', v.build, 0)
}

/// Where a text ends with the text of a printable version, the numbers
/// at the start of that part read as the numbers of the version, and the
/// lists follow them.
pub proof fn lemma_core_reads_back(s: Seq<char>, pos: int, v: VersionView)
    requires
        0 <= pos <= s.len(),
        s.skip(pos) == version_text(v),
        printable_version(v),
    ensures
        numbers_at(s, pos, Seq::empty()) == Ok::<(Seq<u64>, int), Failure>(
            (written_numbers(v), s.len() - lists_text(v).len()),
        ),
        pos <= s.len() - lists_text(v).len(),
        s.skip(s.len() - lists_text(v).len()) == lists_text(v),
{
    reveal(version_text);
    let lists = lists_text(v);
    lemma_lists_start(v.pre_release, v.build);
    if v.revision > 0 {
        assert(tail_text(v) =~= seq!['.'] + (decimal_text(v.revision as nat) + lists));
        lemma_four_numbers(s, pos, v.major, v.minor, v.patch, v.revision, lists);
    } else {
        assert(tail_text(v) =~= lists);
        lemma_three_numbers(s, pos, v.major, v.minor, v.patch, lists);
    }
}

/// Where a text ends with the text of a printable version, that part
/// reads as the numbers and the lists of the version, up to the end.
pub proof fn lemma_version_reads_back(s: Seq<char>, pos: int, v: VersionView)
    requires
        0 <= pos <= s.len(),
        s.skip(pos) == version_text(v),
        printable_version(v),
    ensures
        numbers_at(s, pos, Seq::empty()) == Ok::<(Seq<u64>, int), Failure>(
            (written_numbers(v), s.len() - lists_text(v).len()),
        ),
        extras_at(s, s.len() - lists_text(v).len()) == Ok::<(Extras, int), Failure>(
            (Extras { pre_release: v.pre_release, build: v.build }, s.len() as int),
        ),
        version_of(written_numbers(v), Extras { pre_release: v.pre_release, build: v.build })
            == v,
        0 <= pos < s.len(),
        CharClass::Digit.holds(s[pos]),
{
    lemma_core_reads_back(s, pos, v);
    lemma_extras_read_back(s, s.len() - lists_text(v).len(), v.pre_release, v.build);
    let extras = Extras { pre_release: v.pre_release, build: v.build };
    if v.revision > 0 {
        assert(version_of(seq![v.major, v.minor, v.patch, v.revision], extras) == v);
    } else {
        assert(version_of(seq![v.major, v.minor, v.patch], extras) == v);
    }
    lemma_number_starts(s, pos);
}

/// A number starts with a digit.
pub proof fn lemma_number_starts(s: Seq<char>, pos: int)
    requires
        numbers_at(s, pos, Seq::empty()) is Ok || number_at(s, pos) is Ok,
        0 <= pos <= s.len(),
    ensures
        0 <= pos < s.len(),
        CharClass::Digit.holds(s[pos]),
{
    reveal(numbers_at);
    lemma_span_end(s, pos, CharClass::Digit);
}

/// Writing a readable version and reading the text back gives the version
/// again: the same components, the same pre-release list and the same
/// build list. In particular the two are equal as versions.
pub proof fn lemma_version_round_trip(v: VersionView)
    requires
        readable_version(v),
    ensures
        parse_version(version_text(v)) == Ok::<VersionView, Failure>(v),
        parse_version(version_text(v)) matches Ok(read) && version_eq(read, v),
{
    let s = version_text(v);
    lemma_version_order_reflexive(v);
    assert(s.skip(0) =~= s);
    lemma_version_reads_back(s, 0, v);
}

/// The text of the lists of a version is empty or starts with `-` or `+`:
/// with no digit and no dot.
pub proof fn lemma_lists_start(pre_release: Seq<IdentifierView>, build: Seq<IdentifierView>)
    ensures
        ({
            let lists = list_text_from('-', pre_release, 0) + list_text_from('+', build, 0);
            lists.len() == 0 || lists[0] == '-' || lists[0] == '+'
        }),
{
    let pre_text = list_text_from('-', pre_release, 0);
    let build_text = list_text_from('+', build, 0);
    if pre_release.len() > 0 {
        assert(pre_text == seq!['-'] + (identifier_text(pre_release[0]) + list_text_from(
            '-',
            pre_release,
            1,
        )));
        assert((pre_text + build_text)[0] == pre_text[0]);
    } else if build.len() > 0 {
        assert(pre_text =~= Seq::<char>::empty());
        assert(build_text == seq!['+'] + (identifier_text(build[0]) + list_text_from(
            '+',
            build,
            1,
        )));
        assert((pre_text + build_text)[0] == build_text[0]);
    } else {
        assert(pre_text + build_text =~= Seq::<char>::empty());
    }
}

/// Appends the text of a list of identifiers to `out`.
fn push_list(out: &mut String, lead: char, list: &Vec<Identifier>)
    requires
        lead == '-' || lead == '+',
    ensures
        final(out)@ == old(out)@ + list_text_from(lead, identifiers_view(list@), 0),
{
    let ghost views = identifiers_view(list@);
    let ghost start = out@;
    let mut i: usize = 0;
    proof {
        reveal_strlit("-");
        reveal_strlit("+");
        reveal_strlit(".");
    }
    while i < list.len()
        invariant
            i <= list.len(),
            views == identifiers_view(list@),
            lead == '-' || lead == '+',
            out@ + list_text_from(lead, views, i as int) == start + list_text_from(lead, views, 0),
        decreases list.len() - i,
    {
        let ghost before = out@;
        let ghost mark = if i == 0 {
            lead
        } else {
            '.'
        };
        proof {
            reveal_strlit("-");
            reveal_strlit("+");
            reveal_strlit(".");
        }
        if i > 0 {
            out.append(".");
            assert("."@ =~= seq!['.']);
        } else if lead == '-' {
            out.append("-");
            assert("-"@ =~= seq!['-']);
        } else {
            out.append("+");
            assert("+"@ =~= seq!['+']);
        }
        assert(out@ == before + seq![mark]);
        match &list[i] {
            Identifier::Numeric(n) => {
                push_decimal(out, *n);
            },
            Identifier::AlphaNumeric(text) => {
                out.append(text.as_str());
            },
        }
        assert(out@ == (before + seq![mark]) + identifier_text(views[i as int]));
        assert(out@ + list_text_from(lead, views, i + 1) =~= before + list_text_from(
            lead,
            views,
            i as int,
        ));
        i = i + 1;
    }
    assert(list_text_from(lead, views, i as int) =~= Seq::<char>::empty());
    assert(out@ =~= start + list_text_from(lead, views, 0));
}

impl Version {
    /// Reads a version from its text.
    ///
    /// Where reading fails, the error holds the text, the kind of the
    /// failure and its offset. Only ASCII characters stand before that
    /// offset, so it counts bytes as well as characters.
    pub fn parse(input: &str) -> (version: Result<Version, SemverError>)
        ensures
            match version {
                Ok(v) => parse_version(input@) == Ok::<VersionView, Failure>(v@),
                Err(e) => parse_version(input@) matches Err(failure) && e@ == error_of(
                    input@,
                    failure,
                ) && stopped(input@, 0, failure),
            },
    {
        proof {
            lemma_version_failure_offset(input@);
        }
        let s = chars_of(input);
        if s.len() > MAX_LENGTH {
            return Err(SemverError::new(input, 0, SemverErrorKind::MaxLengthError));
        }
        let mut numbers: Vec<u64> = Vec::new();
        let mut at: usize = 0;
        loop
            invariant_except_break
                numbers.len() < 4,
                numbers_at(s@, 0, Seq::empty()) == numbers_at(s@, at as int, numbers@),
            invariant
                s@ == input@,
                s.len() <= MAX_LENGTH,
                at <= s.len(),
                parse_version(input@) matches Err(failure) ==> stopped(input@, 0, failure),
            ensures
                1 <= numbers.len() <= 4,
                numbers_at(s@, 0, Seq::empty()) == Ok::<(Seq<u64>, int), Failure>(
                    (numbers@, at as int),
                ),
            decreases 4 - numbers.len(),
        {
            proof {
                reveal(numbers_at);
            }
            match read_number(&s, at) {
                Err(stop) => {
                    return Err(SemverError::new(input, stop.offset, stop.kind));
                },
                Ok((n, end)) => {
                    numbers.push(n);
                    if numbers.len() < 4 && end < s.len() && s[end] == '.' {
                        at = end + 1;
                    } else {
                        at = end;
                        break ;
                    }
                },
            }
        }
        match read_extras(input, &s, at) {
            Err(stop) => Err(SemverError::new(input, stop.offset, stop.kind)),
            Ok((extras, end)) => {
                if end < s.len() {
                    Err(SemverError::new(input, end, SemverErrorKind::Other))
                } else {
                    Ok(
                        Version {
                            major: numbers[0],
                            minor: if numbers.len() > 1 {
                                numbers[1]
                            } else {
                                0
                            },
                            patch: if numbers.len() > 2 {
                                numbers[2]
                            } else {
                                0
                            },
                            revision: if numbers.len() > 3 {
                                numbers[3]
                            } else {
                                0
                            },
                            build: extras.build,
                            pre_release: extras.pre_release,
                        },
                    )
                }
            },
        }
    }

    /// The canonical text of the version.
    pub fn to_string(&self) -> (text: String)
        ensures
            text@ == version_text(self@),
    {
        proof {
            reveal(version_text);
            reveal_strlit(".");
        }
        let mut text = String::new();
        push_decimal(&mut text, self.major);
        text.append(".");
        push_decimal(&mut text, self.minor);
        text.append(".");
        push_decimal(&mut text, self.patch);
        if self.revision > 0 {
            text.append(".");
            push_decimal(&mut text, self.revision);
        }
        assert("."@ =~= seq!['.']);
        let ghost core = text@;
        assert(core =~= decimal_text(self.major as nat) + (seq!['.'] + (decimal_text(
            self.minor as nat,
        ) + (seq!['.'] + (decimal_text(self.patch as nat) + revision_text(self.revision))))));
        push_list(&mut text, '-', &self.pre_release);
        push_list(&mut text, '+', &self.build);
        assert(text@ =~= version_text(self@));
        text
    }
}

impl std::str::FromStr for Version {
    type Err = SemverError;

    fn from_str(s: &str) -> (version: Result<Self, Self::Err>)
        ensures
            match version {
                Ok(v) => parse_version(s@) == Ok::<VersionView, Failure>(v@),
                Err(e) => parse_version(s@) matches Err(failure) && e@ == error_of(s@, failure),
            },
    {
        Version::parse(s)
    }
}

/// The numbers of a version end after their start, and reading them
/// passes ASCII characters only.
pub proof fn lemma_numbers_at_progress(s: Seq<char>, pos: int, found: Seq<u64>)
    requires
        0 <= pos <= s.len(),
    ensures
        match numbers_at(s, pos, found) {
            Ok((numbers, end)) => passed(s, pos, end),
            Err(failure) => stopped(s, pos, failure),
        },
    decreases 4 - found.len(),
{
    reveal(numbers_at);
    lemma_number_at_progress(s, pos);
    match number_at(s, pos) {
        Ok((n, end)) => {
            if found.push(n).len() < 4 && end < s.len() && s[end] == '.' {
                lemma_numbers_at_progress(s, end + 1, found.push(n));
            }
        },
        Err(_) => {},
    }
}

/// Where reading a version fails, the offset of the failure lies within
/// the text, and every character before it is an ASCII character: the
/// offset counts bytes as well as characters.
pub proof fn lemma_version_failure_offset(s: Seq<char>)
    ensures
        parse_version(s) matches Err(failure) ==> stopped(s, 0, failure),
{
    lemma_numbers_at_progress(s, 0, Seq::empty());
    match numbers_at(s, 0, Seq::empty()) {
        Ok((_, p)) => {
            lemma_extras_at_progress(s, p);
        },
        Err(_) => {},
    }
}

} // verus!
