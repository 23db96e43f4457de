//! Identifiers: the atoms of pre-release and build metadata.

use vstd::prelude::*;
use vstd::utf8::encode_utf8;

verus! {

/// One dot-separated piece of a pre-release or build list.
#[derive(Debug)]
pub enum Identifier {
    /// An identifier that is solely digits and small enough to be a number.
    Numeric(u64),
    /// Any other identifier.
    AlphaNumeric(String),
}

/// What an [`Identifier`] stands for in specifications.
pub enum IdentifierView {
    Numeric(u64),
    AlphaNumeric(Seq<char>),
}

impl View for Identifier {
    type V = IdentifierView;

    open spec fn view(&self) -> IdentifierView {
        match self {
            Identifier::Numeric(n) => IdentifierView::Numeric(*n),
            Identifier::AlphaNumeric(s) => IdentifierView::AlphaNumeric(s@),
        }
    }
}

/// The views of a list of identifiers, in order.
pub open spec fn identifiers_view(list: Seq<Identifier>) -> Seq<IdentifierView> {
    Seq::new(list.len(), |i: int| list[i]@)
}

/// The upper-case form that `str::to_uppercase` gives a text.
pub uninterp spec fn uppercase_of(text: Seq<char>) -> Seq<char>;

/// Calls `str::to_uppercase`. The upper-case mapping of Unicode is not
/// written out here: the contract only names its result, as a function of
/// the characters of `text`.
#[verifier::external_body]
pub(crate) fn uppercase(text: &str) -> (upper: String)
    ensures
        upper@ == uppercase_of(text@),
{
    text.to_uppercase()
}

/// The bytes by which an alphanumeric identifier is compared: the UTF-8
/// form of its upper-case text. Two texts that differ only in case have the
/// same bytes here.
pub open spec fn folded(text: Seq<char>) -> Seq<u8> {
    encode_utf8(uppercase_of(text))
}

/// Three-way comparison of two numbers: -1, 0 or 1.
pub open spec fn number_order(a: u64, b: u64) -> int {
    if a < b {
        -1
    } else if a == b {
        0
    } else {
        1
    }
}

/// Lexicographic three-way comparison of two byte strings from index `i`
/// on, given that they agree before `i`. A proper prefix comes first.
pub open spec fn bytes_order_from(a: Seq<u8>, b: Seq<u8>, i: int) -> int
    decreases a.len() - i,
{
    if i < 0 {
        0
    } else if i >= a.len() {
        if i >= b.len() {
            0
        } else {
            -1
        }
    } else if i >= b.len() {
        1
    } else if a[i] < b[i] {
        -1
    } else if a[i] > b[i] {
        1
    } else {
        bytes_order_from(a, b, i + 1)
    }
}

/// Lexicographic three-way comparison of two byte strings.
pub open spec fn bytes_order(a: Seq<u8>, b: Seq<u8>) -> int {
    bytes_order_from(a, b, 0)
}

/// Three-way comparison of two identifiers: numbers by value, texts by
/// their folded bytes, and every number before every text.
pub open spec fn identifier_order(a: IdentifierView, b: IdentifierView) -> int {
    match (a, b) {
        (IdentifierView::Numeric(x), IdentifierView::Numeric(y)) => number_order(x, y),
        (IdentifierView::Numeric(_), IdentifierView::AlphaNumeric(_)) => -1,
        (IdentifierView::AlphaNumeric(_), IdentifierView::Numeric(_)) => 1,
        (IdentifierView::AlphaNumeric(x), IdentifierView::AlphaNumeric(y)) => bytes_order(
            folded(x),
            folded(y),
        ),
    }
}

/// A comparison of byte strings gives -1, 0 or 1.
pub proof fn lemma_bytes_order_range(a: Seq<u8>, b: Seq<u8>, i: int)
    ensures
        -1 <= bytes_order_from(a, b, i) <= 1,
    decreases a.len() - i,
{
    if 0 <= i < a.len() && i < b.len() && a[i] == b[i] {
        lemma_bytes_order_range(a, b, i + 1);
    }
}

/// Every byte string equals itself.
pub proof fn lemma_bytes_order_reflexive(a: Seq<u8>, i: int)
    ensures
        bytes_order_from(a, a, i) == 0,
    decreases a.len() - i,
{
    if 0 <= i < a.len() {
        lemma_bytes_order_reflexive(a, i + 1);
    }
}

/// Swapping the two sides of a comparison of byte strings flips its sign.
pub proof fn lemma_bytes_order_mirror(a: Seq<u8>, b: Seq<u8>, i: int)
    ensures
        bytes_order_from(a, b, i) == -bytes_order_from(b, a, i),
    decreases a.len() - i,
{
    if 0 <= i < a.len() && i < b.len() && a[i] == b[i] {
        lemma_bytes_order_mirror(a, b, i + 1);
    }
}

/// The order of byte strings is transitive, and strict where one step is.
pub proof fn lemma_bytes_order_transitive(a: Seq<u8>, b: Seq<u8>, c: Seq<u8>, i: int)
    requires
        bytes_order_from(a, b, i) <= 0,
        bytes_order_from(b, c, i) <= 0,
    ensures
        bytes_order_from(a, c, i) <= 0,
        bytes_order_from(a, b, i) < 0 || bytes_order_from(b, c, i) < 0 ==> bytes_order_from(
            a,
            c,
            i,
        ) < 0,
    decreases a.len() - i,
{
    if 0 <= i < a.len() && i < b.len() && i < c.len() && a[i] == b[i] && b[i] == c[i] {
        lemma_bytes_order_transitive(a, b, c, i + 1);
    }
}

/// Two byte strings compare as equal only when they are the same string.
pub proof fn lemma_bytes_order_equal(a: Seq<u8>, b: Seq<u8>, i: int)
    requires
        0 <= i <= a.len(),
        i <= b.len(),
        bytes_order_from(a, b, i) == 0,
    ensures
        a.len() == b.len(),
        forall|j: int| i <= j < a.len() ==> a[j] == b[j],
    decreases a.len() - i,
{
    if i < a.len() && i < b.len() {
        lemma_bytes_order_equal(a, b, i + 1);
    }
}

/// The order of identifiers is reflexive.
pub proof fn lemma_identifier_order_reflexive(a: IdentifierView)
    ensures
        identifier_order(a, a) == 0,
{
    match a {
        IdentifierView::Numeric(_) => {},
        IdentifierView::AlphaNumeric(x) => {
            lemma_bytes_order_reflexive(folded(x), 0);
        },
    }
}

/// Swapping the two sides of a comparison of identifiers flips its sign,
/// so any two identifiers are comparable.
pub proof fn lemma_identifier_order_mirror(a: IdentifierView, b: IdentifierView)
    ensures
        identifier_order(a, b) == -identifier_order(b, a),
        -1 <= identifier_order(a, b) <= 1,
{
    match (a, b) {
        (IdentifierView::AlphaNumeric(x), IdentifierView::AlphaNumeric(y)) => {
            lemma_bytes_order_mirror(folded(x), folded(y), 0);
            lemma_bytes_order_range(folded(x), folded(y), 0);
        },
        _ => {},
    }
}

/// The order of identifiers is transitive, and strict where one step is.
pub proof fn lemma_identifier_order_transitive(
    a: IdentifierView,
    b: IdentifierView,
    c: IdentifierView,
)
    requires
        identifier_order(a, b) <= 0,
        identifier_order(b, c) <= 0,
    ensures
        identifier_order(a, c) <= 0,
        identifier_order(a, b) < 0 || identifier_order(b, c) < 0 ==> identifier_order(a, c) < 0,
{
    match (a, b, c) {
        (
            IdentifierView::AlphaNumeric(x),
            IdentifierView::AlphaNumeric(y),
            IdentifierView::AlphaNumeric(z),
        ) => {
            lemma_bytes_order_transitive(folded(x), folded(y), folded(z), 0);
        },
        _ => {},
    }
}

/// Compares two byte strings lexicographically.
pub fn bytes_sign(a: &[u8], b: &[u8]) -> (sign: i8)
    ensures
        sign == bytes_order(a@, b@),
{
    let mut i: usize = 0;
    while i < a.len() && i < b.len()
        invariant
            i <= a.len(),
            i <= b.len(),
            bytes_order(a@, b@) == bytes_order_from(a@, b@, i as int),
        decreases a.len() - i,
    {
        if a[i] < b[i] {
            return -1;
        }
        if a[i] > b[i] {
            return 1;
        }
        i = i + 1;
    }
    if i < b.len() {
        -1
    } else if i < a.len() {
        1
    } else {
        0
    }
}

impl Identifier {
    /// Three-way comparison with `other`: -1 where `self` comes first, 0
    /// where the two are equal, 1 where `other` comes first.
    pub fn sign(&self, other: &Identifier) -> (sign: i8)
        ensures
            sign == identifier_order(self@, other@),
    {
        match (self, other) {
            (Identifier::Numeric(x), Identifier::Numeric(y)) => {
                if *x < *y {
                    -1
                } else if *x == *y {
                    0
                } else {
                    1
                }
            },
            (Identifier::Numeric(_), Identifier::AlphaNumeric(_)) => -1,
            (Identifier::AlphaNumeric(_), Identifier::Numeric(_)) => 1,
            (Identifier::AlphaNumeric(x), Identifier::AlphaNumeric(y)) => {
                let upper_x = uppercase(x.as_str());
                let upper_y = uppercase(y.as_str());
                bytes_sign(upper_x.as_str().as_bytes(), upper_y.as_str().as_bytes())
            },
        }
    }
}

impl Clone for Identifier {
    fn clone(&self) -> (copy: Self)
        ensures
            copy@ == self@,
    {
        match self {
            Identifier::Numeric(n) => Identifier::Numeric(*n),
            Identifier::AlphaNumeric(s) => Identifier::AlphaNumeric(s.clone()),
        }
    }
}

impl PartialEq for Identifier {
    fn eq(&self, other: &Self) -> (equal: bool) {
        self.sign(other) == 0
    }
}

impl vstd::std_specs::cmp::PartialEqSpecImpl for Identifier {
    open spec fn obeys_eq_spec() -> bool {
        true
    }

    open spec fn eq_spec(&self, other: &Self) -> bool {
        identifier_order(self@, other@) == 0
    }
}

impl Eq for Identifier {

}

} // verus!
