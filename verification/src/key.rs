//! Keys that stand for versions in hashed collections.

use vstd::prelude::*;
use vstd::slice::slice_to_vec;
use crate::identifier::{
    bytes_order, folded, identifier_order, lemma_bytes_order_equal, lemma_bytes_order_reflexive,
    uppercase, Identifier, IdentifierView,
};
use crate::version::{identifiers_order_from, version_eq, Version, VersionView};

verus! {

/// What decides whether two identifiers are equal: the number, or the
/// bytes of the upper-case text.
#[derive(Debug, PartialEq, Eq, Hash)]
pub enum IdentifierKey {
    Numeric(u64),
    Text(Vec<u8>),
}

/// What decides whether two versions are equal: the four components and
/// the keys of the pre-release list. Equal versions have equal keys, and
/// so equal hashes.
#[derive(Debug, PartialEq, Eq, Hash)]
pub struct VersionKey {
    pub major: u64,
    pub minor: u64,
    pub patch: u64,
    pub revision: u64,
    pub pre_release: Vec<IdentifierKey>,
}

/// What an [`IdentifierKey`] stands for in specifications.
pub enum IdentifierKeyView {
    Numeric(u64),
    Text(Seq<u8>),
}

/// What a [`VersionKey`] stands for in specifications.
pub struct VersionKeyView {
    pub major: u64,
    pub minor: u64,
    pub patch: u64,
    pub revision: u64,
    pub pre_release: Seq<IdentifierKeyView>,
}

impl View for IdentifierKey {
    type V = IdentifierKeyView;

    open spec fn view(&self) -> IdentifierKeyView {
        match self {
            IdentifierKey::Numeric(n) => IdentifierKeyView::Numeric(*n),
            IdentifierKey::Text(bytes) => IdentifierKeyView::Text(bytes@),
        }
    }
}

impl View for VersionKey {
    type V = VersionKeyView;

    open spec fn view(&self) -> VersionKeyView {
        VersionKeyView {
            major: self.major,
            minor: self.minor,
            patch: self.patch,
            revision: self.revision,
            pre_release: Seq::new(self.pre_release@.len(), |i: int| self.pre_release@[i]@),
        }
    }
}

/// The key of an identifier.
pub open spec fn identifier_key(identifier: IdentifierView) -> IdentifierKeyView {
    match identifier {
        IdentifierView::Numeric(n) => IdentifierKeyView::Numeric(n),
        IdentifierView::AlphaNumeric(text) => IdentifierKeyView::Text(folded(text)),
    }
}

/// The key of a version. The build list takes no part in it.
pub open spec fn version_key(v: VersionView) -> VersionKeyView {
    VersionKeyView {
        major: v.major,
        minor: v.minor,
        patch: v.patch,
        revision: v.revision,
        pre_release: Seq::new(v.pre_release.len(), |i: int| identifier_key(v.pre_release[i])),
    }
}

/// Two identifiers are equal exactly when they have the same key.
pub proof fn lemma_identifier_key_decides(a: IdentifierView, b: IdentifierView)
    ensures
        identifier_order(a, b) == 0 <==> identifier_key(a) == identifier_key(b),
{
    match (a, b) {
        (IdentifierView::AlphaNumeric(x), IdentifierView::AlphaNumeric(y)) => {
            if bytes_order(folded(x), folded(y)) == 0 {
                lemma_bytes_order_equal(folded(x), folded(y), 0);
                assert(folded(x) =~= folded(y));
            }
            lemma_bytes_order_reflexive(folded(x), 0);
        },
        _ => {},
    }
}

/// Two identifier lists compare as equal from `i` on exactly when they
/// have the same length and the same keys from `i` on.
pub proof fn lemma_identifier_keys_decide(a: Seq<IdentifierView>, b: Seq<IdentifierView>, i: int)
    requires
        0 <= i <= a.len(),
        i <= b.len(),
    ensures
        identifiers_order_from(a, b, i) == 0 <==> a.len() == b.len() && forall|j: int|
            i <= j < a.len() ==> identifier_key(#[trigger] a[j]) == identifier_key(b[j]),
    decreases a.len() - i,
{
    if i < a.len() && i < b.len() {
        lemma_identifier_key_decides(a[i], b[i]);
        lemma_identifier_keys_decide(a, b, i + 1);
    }
}

/// Two versions are equal exactly when they have the same key.
pub proof fn lemma_version_key_decides(a: VersionView, b: VersionView)
    ensures
        version_eq(a, b) <==> version_key(a) == version_key(b),
{
    lemma_identifier_keys_decide(a.pre_release, b.pre_release, 0);
    let ka = version_key(a).pre_release;
    let kb = version_key(b).pre_release;
    if version_eq(a, b) {
        assert(ka =~= kb);
    }
    if version_key(a) == version_key(b) {
        assert(ka.len() == kb.len());
        assert forall|j: int| 0 <= j < a.pre_release.len() implies identifier_key(
            #[trigger] a.pre_release[j],
        ) == identifier_key(b.pre_release[j]) by {
            assert(ka[j] == kb[j]);
        }
    }
}

impl Identifier {
    /// The key of the identifier.
    pub fn key(&self) -> (key: IdentifierKey)
        ensures
            key@ == identifier_key(self@),
    {
        match self {
            Identifier::Numeric(n) => IdentifierKey::Numeric(*n),
            Identifier::AlphaNumeric(text) => {
                let upper = uppercase(text.as_str());
                IdentifierKey::Text(slice_to_vec(upper.as_str().as_bytes()))
            },
        }
    }
}

impl Version {
    /// The key of the version.
    pub fn key(&self) -> (key: VersionKey)
        ensures
            key@ == version_key(self@),
    {
        let mut pre_release: Vec<IdentifierKey> = Vec::new();
        let mut i: usize = 0;
        while i < self.pre_release.len()
            invariant
                i <= self.pre_release.len(),
                pre_release.len() == i,
                forall|j: int|
                    0 <= j < i ==> pre_release@[j]@ == identifier_key(self.pre_release@[j]@),
            decreases self.pre_release.len() - i,
        {
            pre_release.push(self.pre_release[i].key());
            i = i + 1;
        }
        let key = VersionKey {
            major: self.major,
            minor: self.minor,
            patch: self.patch,
            revision: self.revision,
            pre_release,
        };
        assert(key@.pre_release =~= version_key(self@).pre_release);
        key
    }
}

} // verus!
