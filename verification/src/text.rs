//! Characters, spans of characters, and decimal numbers in text.

use vstd::prelude::*;
use vstd::string::StringExecFns;

verus! {

/// The classes of characters that the grammar of versions tells apart.
#[derive(Clone, Copy, Debug, PartialEq, Eq, Structural)]
pub enum CharClass {
    /// `0` to `9`.
    Digit,
    /// A letter of `a` to `z` or `A` to `Z`, a digit, or a hyphen.
    Token,
    /// A space or a tab.
    Blank,
}

/// `0` to `9`.
pub open spec fn is_digit(c: char) -> bool {
    '0' <= c <= '9'
}

/// `a` to `z` and `A` to `Z`.
pub open spec fn is_letter(c: char) -> bool {
    ('a' <= c <= 'z') || ('A' <= c <= 'Z')
}

impl CharClass {
    /// Whether `c` belongs to the class.
    pub open spec fn holds(self, c: char) -> bool {
        match self {
            CharClass::Digit => is_digit(c),
            CharClass::Token => is_digit(c) || is_letter(c) || c == '-',
            CharClass::Blank => c == ' ' || c == '\t',
        }
    }

    /// Whether `c` belongs to the class.
    pub fn accepts(self, c: char) -> (yes: bool)
        ensures
            yes == self.holds(c),
    {
        match self {
            CharClass::Digit => '0' <= c && c <= '9',
            CharClass::Token => ('0' <= c && c <= '9') || ('a' <= c && c <= 'z') || ('A' <= c
                && c <= 'Z') || c == '-',
            CharClass::Blank => c == ' ' || c == '\t',
        }
    }
}

/// Every character of `s` belongs to `class`.
pub open spec fn all_of(s: Seq<char>, class: CharClass) -> bool {
    forall|i: int| 0 <= i < s.len() ==> class.holds(#[trigger] s[i])
}

/// Where the run of characters of `class` that starts at `from` ends: the
/// first index at or after `from` whose character is not of the class, or
/// the length of `s`.
#[verifier::opaque]
pub open spec fn span_end(s: Seq<char>, from: int, class: CharClass) -> int
    decreases s.len() - from,
{
    if 0 <= from < s.len() && class.holds(s[from]) {
        span_end(s, from + 1, class)
    } else {
        from
    }
}

/// A run ends at or after its start, within the text, holds only
/// characters of its class, and stops before one that is not.
pub proof fn lemma_span_end(s: Seq<char>, from: int, class: CharClass)
    requires
        0 <= from <= s.len(),
    ensures
        from <= span_end(s, from, class) <= s.len(),
        forall|i: int| from <= i < span_end(s, from, class) ==> class.holds(#[trigger] s[i]),
        span_end(s, from, class) < s.len() ==> !class.holds(s[span_end(s, from, class)]),
        all_of(s.subrange(from, span_end(s, from, class)), class),
    decreases s.len() - from,
{
    reveal(span_end);
    if from < s.len() && class.holds(s[from]) {
        lemma_span_end(s, from + 1, class);
    }
}

/// A run that holds only characters of the class up to `end`, and stops
/// there, ends at `end`.
pub proof fn lemma_span_end_is(s: Seq<char>, from: int, end: int, class: CharClass)
    requires
        0 <= from <= end <= s.len(),
        forall|i: int| from <= i < end ==> class.holds(#[trigger] s[i]),
        end < s.len() ==> !class.holds(s[end]),
    ensures
        span_end(s, from, class) == end,
    decreases end - from,
{
    reveal(span_end);
    if from < end {
        lemma_span_end_is(s, from + 1, end, class);
    }
}

/// The digit character for a value below ten.
pub open spec fn digit_char(d: nat) -> char {
    (('0' as nat) + d) as char
}

/// The value of a digit character.
pub open spec fn digit_value(c: char) -> nat {
    ((c as nat) - ('0' as nat)) as nat
}

/// The decimal form of a number, without leading zeros.
#[verifier::opaque]
pub open spec fn decimal_text(n: nat) -> Seq<char>
    decreases n,
{
    if n < 10 {
        seq![digit_char(n)]
    } else {
        decimal_text(n / 10).push(digit_char(n % 10))
    }
}

/// The number that a run of digits denotes; leading zeros are allowed.
#[verifier::opaque]
pub open spec fn decimal_value(digits: Seq<char>) -> nat
    decreases digits.len(),
{
    if digits.len() == 0 {
        0
    } else {
        decimal_value(digits.drop_last()) * 10 + digit_value(digits.last())
    }
}

/// The decimal form of a number is a run of at least one digit, and
/// denotes the number.
pub proof fn lemma_decimal_text(n: nat)
    ensures
        decimal_text(n).len() >= 1,
        all_of(decimal_text(n), CharClass::Digit),
        all_of(decimal_text(n), CharClass::Token),
        decimal_value(decimal_text(n)) == n,
    decreases n,
{
    reveal(decimal_text);
    reveal(decimal_value);
    if n < 10 {
        let t = decimal_text(n);
        assert(t.drop_last() =~= Seq::<char>::empty());
        assert(decimal_value(t.drop_last()) == 0);
        assert(t.last() == digit_char(n));
    } else {
        lemma_decimal_text(n / 10);
        let t = decimal_text(n);
        assert(t.drop_last() =~= decimal_text(n / 10));
        assert(t.last() == digit_char(n % 10));
    }
}

/// A run of digits denotes ten times what it denotes without its last
/// digit, and that digit more; the empty run denotes 0.
pub proof fn lemma_decimal_value_step(digits: Seq<char>)
    ensures
        digits.len() == 0 ==> decimal_value(digits) == 0,
        digits.len() > 0 ==> decimal_value(digits) == decimal_value(digits.drop_last()) * 10
            + digit_value(digits.last()),
{
    reveal(decimal_value);
}

/// A longer run of digits denotes at least as much as its start.
pub proof fn lemma_decimal_value_grows(digits: Seq<char>, k: int)
    requires
        0 <= k <= digits.len(),
    ensures
        decimal_value(digits.subrange(0, k)) <= decimal_value(digits),
    decreases digits.len() - k,
{
    reveal(decimal_value);
    if k < digits.len() {
        let shorter = digits.drop_last();
        lemma_decimal_value_grows(shorter, k);
        assert(shorter.subrange(0, k) =~= digits.subrange(0, k));
    } else {
        assert(digits.subrange(0, k) =~= digits);
    }
}

/// The text of one digit.
fn digit_str(d: u64) -> (text: &'static str)
    requires
        d < 10,
    ensures
        text@ == seq![digit_char(d as nat)],
{
    proof {
        reveal_strlit("0");
        reveal_strlit("1");
        reveal_strlit("2");
        reveal_strlit("3");
        reveal_strlit("4");
        reveal_strlit("5");
        reveal_strlit("6");
        reveal_strlit("7");
        reveal_strlit("8");
        reveal_strlit("9");
    }
    let text = if d == 0 {
        "0"
    } else if d == 1 {
        "1"
    } else if d == 2 {
        "2"
    } else if d == 3 {
        "3"
    } else if d == 4 {
        "4"
    } else if d == 5 {
        "5"
    } else if d == 6 {
        "6"
    } else if d == 7 {
        "7"
    } else if d == 8 {
        "8"
    } else {
        "9"
    };
    assert(text@ =~= seq![digit_char(d as nat)]);
    text
}

/// Appends the decimal form of `n` to `out`.
pub fn push_decimal(out: &mut String, n: u64)
    ensures
        final(out)@ == old(out)@ + decimal_text(n as nat),
    decreases n,
{
    proof {
        reveal(decimal_text);
    }
    if n >= 10 {
        push_decimal(out, n / 10);
    }
    out.append(digit_str(n % 10));
    assert(out@ =~= old(out)@ + decimal_text(n as nat));
}

/// The characters of a text, one by one.
pub fn chars_of(text: &str) -> (chars: Vec<char>)
    ensures
        chars@ == text@,
{
    let mut chars: Vec<char> = Vec::new();
    for c in it: text.chars()
        invariant
            chars@ == it.seq().take(it.index() as int),
            it.seq() == text@,
    {
        chars.push(c);
    }
    chars
}

} // verus!
