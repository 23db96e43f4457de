//! Versions and their total order.

use vstd::prelude::*;
use crate::identifier::{
    identifier_order, identifiers_view, lemma_identifier_order_mirror,
    lemma_identifier_order_reflexive, lemma_identifier_order_transitive, number_order, Identifier,
    IdentifierView,
};

verus! {

/// A version: four numeric components, a pre-release list and a build list.
///
/// The build list is carried along and printed, and takes no part in
/// equality or ordering.
#[derive(Debug)]
pub struct Version {
    pub major: u64,
    pub minor: u64,
    pub patch: u64,
    pub revision: u64,
    pub build: Vec<Identifier>,
    pub pre_release: Vec<Identifier>,
}

/// What a [`Version`] stands for in specifications.
pub struct VersionView {
    pub major: u64,
    pub minor: u64,
    pub patch: u64,
    pub revision: u64,
    pub build: Seq<IdentifierView>,
    pub pre_release: Seq<IdentifierView>,
}

impl View for Version {
    type V = VersionView;

    open spec fn view(&self) -> VersionView {
        VersionView {
            major: self.major,
            minor: self.minor,
            patch: self.patch,
            revision: self.revision,
            build: identifiers_view(self.build@),
            pre_release: identifiers_view(self.pre_release@),
        }
    }
}

/// Element-wise three-way comparison of two identifier lists from index
/// `i` on, given that they agree before `i`. A proper prefix comes first.
pub open spec fn identifiers_order_from(
    a: Seq<IdentifierView>,
    b: Seq<IdentifierView>,
    i: int,
) -> int
    decreases a.len() - i,
{
    if i < 0 {
        0
    } else if i >= a.len() {
        if i >= b.len() {
            0
        } else {
            -1
        }
    } else if i >= b.len() {
        1
    } else if identifier_order(a[i], b[i]) != 0 {
        identifier_order(a[i], b[i])
    } else {
        identifiers_order_from(a, b, i + 1)
    }
}

/// Three-way comparison of two pre-release lists. The empty list, which
/// marks a release, comes after every other list.
pub open spec fn pre_release_order(a: Seq<IdentifierView>, b: Seq<IdentifierView>) -> int {
    if a.len() == 0 {
        if b.len() == 0 {
            0
        } else {
            1
        }
    } else if b.len() == 0 {
        -1
    } else {
        identifiers_order_from(a, b, 0)
    }
}

/// Three-way comparison of two versions: -1 where `a` comes first, 0 where
/// they are equal, 1 where `b` comes first. The numeric components decide
/// in the order major, minor, patch, revision; then the pre-release lists.
pub open spec fn version_order(a: VersionView, b: VersionView) -> int {
    if a.major != b.major {
        number_order(a.major, b.major)
    } else if a.minor != b.minor {
        number_order(a.minor, b.minor)
    } else if a.patch != b.patch {
        number_order(a.patch, b.patch)
    } else if a.revision != b.revision {
        number_order(a.revision, b.revision)
    } else {
        pre_release_order(a.pre_release, b.pre_release)
    }
}

/// `a` comes before `b` or equals it.
pub open spec fn version_le(a: VersionView, b: VersionView) -> bool {
    version_order(a, b) <= 0
}

/// `a` comes strictly before `b`.
pub open spec fn version_lt(a: VersionView, b: VersionView) -> bool {
    version_order(a, b) < 0
}

/// `a` and `b` are the same version: equal components, and pre-release
/// lists that are equal up to the case of their letters.
pub open spec fn version_eq(a: VersionView, b: VersionView) -> bool {
    version_order(a, b) == 0
}

/// Every identifier list equals itself.
pub proof fn lemma_identifiers_order_reflexive(a: Seq<IdentifierView>, i: int)
    ensures
        identifiers_order_from(a, a, i) == 0,
    decreases a.len() - i,
{
    if 0 <= i < a.len() {
        lemma_identifier_order_reflexive(a[i]);
        lemma_identifiers_order_reflexive(a, i + 1);
    }
}

/// Swapping the two sides of a comparison of identifier lists flips its
/// sign.
pub proof fn lemma_identifiers_order_mirror(
    a: Seq<IdentifierView>,
    b: Seq<IdentifierView>,
    i: int,
)
    ensures
        identifiers_order_from(a, b, i) == -identifiers_order_from(b, a, i),
        -1 <= identifiers_order_from(a, b, i) <= 1,
    decreases a.len() - i,
{
    if 0 <= i < a.len() && i < b.len() {
        lemma_identifier_order_mirror(a[i], b[i]);
        if identifier_order(a[i], b[i]) == 0 {
            lemma_identifiers_order_mirror(a, b, i + 1);
        }
    }
}

/// The order of identifier lists is transitive, and strict where one
/// step is.
pub proof fn lemma_identifiers_order_transitive(
    a: Seq<IdentifierView>,
    b: Seq<IdentifierView>,
    c: Seq<IdentifierView>,
    i: int,
)
    requires
        identifiers_order_from(a, b, i) <= 0,
        identifiers_order_from(b, c, i) <= 0,
    ensures
        identifiers_order_from(a, c, i) <= 0,
        identifiers_order_from(a, b, i) < 0 || identifiers_order_from(b, c, i) < 0
            ==> identifiers_order_from(a, c, i) < 0,
    decreases a.len() - i,
{
    if 0 <= i < a.len() && i < b.len() && i < c.len() {
        lemma_identifier_order_mirror(a[i], b[i]);
        lemma_identifier_order_mirror(b[i], c[i]);
        lemma_identifier_order_mirror(a[i], c[i]);
        lemma_identifier_order_transitive(a[i], b[i], c[i]);
        if identifier_order(a[i], b[i]) == 0 && identifier_order(b[i], c[i]) == 0 {
            lemma_identifier_order_transitive(c[i], b[i], a[i]);
            lemma_identifiers_order_transitive(a, b, c, i + 1);
        }
    }
}

/// Every version equals itself.
pub proof fn lemma_version_order_reflexive(a: VersionView)
    ensures
        version_order(a, a) == 0,
        version_le(a, a),
{
    lemma_identifiers_order_reflexive(a.pre_release, 0);
}

/// Swapping the two sides of a comparison flips its sign. So any two
/// versions are comparable, and two versions that each come no later than
/// the other are equal.
pub proof fn lemma_version_order_mirror(a: VersionView, b: VersionView)
    ensures
        version_order(a, b) == -version_order(b, a),
        -1 <= version_order(a, b) <= 1,
        version_le(a, b) || version_le(b, a),
        version_le(a, b) && version_le(b, a) ==> version_eq(a, b),
{
    lemma_identifiers_order_mirror(a.pre_release, b.pre_release, 0);
}

/// The order of versions is transitive, and strict where one step is.
pub proof fn lemma_version_order_transitive(a: VersionView, b: VersionView, c: VersionView)
    requires
        version_le(a, b),
        version_le(b, c),
    ensures
        version_le(a, c),
        version_lt(a, b) || version_lt(b, c) ==> version_lt(a, c),
{
    if a.major == b.major && b.major == c.major && a.minor == b.minor && b.minor == c.minor
        && a.patch == b.patch && b.patch == c.patch && a.revision == b.revision && b.revision
        == c.revision {
        if a.pre_release.len() > 0 && b.pre_release.len() > 0 && c.pre_release.len() > 0 {
            lemma_identifiers_order_transitive(a.pre_release, b.pre_release, c.pre_release, 0);
        }
    }
}

/// The build list never decides a comparison.
pub proof fn lemma_version_order_ignores_build(
    a: VersionView,
    b: VersionView,
    build: Seq<IdentifierView>,
)
    ensures
        version_order(VersionView { build, ..a }, b) == version_order(a, b),
        version_order(a, VersionView { build, ..b }) == version_order(a, b),
{
}

fn number_sign(a: u64, b: u64) -> (sign: i8)
    ensures
        sign == number_order(a, b),
{
    if a < b {
        -1
    } else if a == b {
        0
    } else {
        1
    }
}

fn identifiers_sign(a: &Vec<Identifier>, b: &Vec<Identifier>) -> (sign: i8)
    ensures
        sign == identifiers_order_from(identifiers_view(a@), identifiers_view(b@), 0),
{
    let ghost av = identifiers_view(a@);
    let ghost bv = identifiers_view(b@);
    let mut i: usize = 0;
    while i < a.len() && i < b.len()
        invariant
            i <= a.len(),
            i <= b.len(),
            av == identifiers_view(a@),
            bv == identifiers_view(b@),
            identifiers_order_from(av, bv, 0) == identifiers_order_from(av, bv, i as int),
        decreases a.len() - i,
    {
        let sign = a[i].sign(&b[i]);
        if sign != 0 {
            return sign;
        }
        i = i + 1;
    }
    if i < b.len() {
        -1
    } else if i < a.len() {
        1
    } else {
        0
    }
}

/// A copy of a list of identifiers.
pub fn clone_identifiers(list: &Vec<Identifier>) -> (copy: Vec<Identifier>)
    ensures
        identifiers_view(copy@) == identifiers_view(list@),
{
    let mut copy: Vec<Identifier> = Vec::new();
    let mut i: usize = 0;
    while i < list.len()
        invariant
            i <= list.len(),
            copy.len() == i,
            forall|j: int| 0 <= j < i ==> copy@[j]@ == list@[j]@,
        decreases list.len() - i,
    {
        copy.push(list[i].clone());
        i = i + 1;
    }
    assert(identifiers_view(copy@) =~= identifiers_view(list@));
    copy
}

impl Version {
    /// Three-way comparison with `other`: -1 where `self` comes first, 0
    /// where the two are equal, 1 where `other` comes first.
    pub fn sign(&self, other: &Version) -> (sign: i8)
        ensures
            sign == version_order(self@, other@),
    {
        if self.major != other.major {
            number_sign(self.major, other.major)
        } else if self.minor != other.minor {
            number_sign(self.minor, other.minor)
        } else if self.patch != other.patch {
            number_sign(self.patch, other.patch)
        } else if self.revision != other.revision {
            number_sign(self.revision, other.revision)
        } else if self.pre_release.len() == 0 {
            if other.pre_release.len() == 0 {
                0
            } else {
                1
            }
        } else if other.pre_release.len() == 0 {
            -1
        } else {
            identifiers_sign(&self.pre_release, &other.pre_release)
        }
    }

    /// Whether the version is a pre-release.
    pub fn is_pre_release(&self) -> (yes: bool)
        ensures
            yes == (self@.pre_release.len() > 0),
    {
        self.pre_release.len() > 0
    }
}

impl Clone for Version {
    fn clone(&self) -> (copy: Self)
        ensures
            copy@ == self@,
    {
        Version {
            major: self.major,
            minor: self.minor,
            patch: self.patch,
            revision: self.revision,
            build: clone_identifiers(&self.build),
            pre_release: clone_identifiers(&self.pre_release),
        }
    }
}

impl PartialEq for Version {
    fn eq(&self, other: &Self) -> (equal: bool) {
        self.sign(other) == 0
    }
}

impl vstd::std_specs::cmp::PartialEqSpecImpl for Version {
    open spec fn obeys_eq_spec() -> bool {
        true
    }

    open spec fn eq_spec(&self, other: &Self) -> bool {
        version_eq(self@, other@)
    }
}

impl Eq for Version {

}

/// The release with the given components.
pub open spec fn release_view(major: u64, minor: u64, patch: u64, revision: u64) -> VersionView {
    VersionView {
        major,
        minor,
        patch,
        revision,
        build: Seq::empty(),
        pre_release: Seq::empty(),
    }
}

impl From<(u64, u64, u64)> for Version {
    /// The release `major.minor.patch`.
    fn from(parts: (u64, u64, u64)) -> (version: Version)
        ensures
            version@ == release_view(parts.0, parts.1, parts.2, 0),
    {
        let version = Version {
            major: parts.0,
            minor: parts.1,
            patch: parts.2,
            revision: 0,
            build: Vec::new(),
            pre_release: Vec::new(),
        };
        assert(version@.build =~= Seq::empty() && version@.pre_release =~= Seq::empty());
        version
    }
}

/// What `from` returns is told by its own `ensures`: a version cannot be
/// written down in a specification, only its view can.
impl vstd::std_specs::convert::FromSpecImpl<(u64, u64, u64)> for Version {
    open spec fn obeys_from_spec() -> bool {
        false
    }

    open spec fn from_spec(parts: (u64, u64, u64)) -> Version {
        arbitrary()
    }
}

impl From<(u64, u64, u64, u64)> for Version {
    /// The release `major.minor.patch.revision`.
    fn from(parts: (u64, u64, u64, u64)) -> (version: Version)
        ensures
            version@ == release_view(parts.0, parts.1, parts.2, parts.3),
    {
        let version = Version {
            major: parts.0,
            minor: parts.1,
            patch: parts.2,
            revision: parts.3,
            build: Vec::new(),
            pre_release: Vec::new(),
        };
        assert(version@.build =~= Seq::empty() && version@.pre_release =~= Seq::empty());
        version
    }
}

impl vstd::std_specs::convert::FromSpecImpl<(u64, u64, u64, u64)> for Version {
    open spec fn obeys_from_spec() -> bool {
        false
    }

    open spec fn from_spec(parts: (u64, u64, u64, u64)) -> Version {
        arbitrary()
    }
}

impl From<(u64, u64, u64, u64, u64)> for Version {
    /// The pre-release of `major.minor.patch.revision` whose list is the
    /// one number given last.
    fn from(parts: (u64, u64, u64, u64, u64)) -> (version: Version)
        ensures
            version@ == (VersionView {
                pre_release: seq![IdentifierView::Numeric(parts.4)],
                ..release_view(parts.0, parts.1, parts.2, parts.3)
            }),
    {
        let mut pre_release: Vec<Identifier> = Vec::new();
        pre_release.push(Identifier::Numeric(parts.4));
        let version = Version {
            major: parts.0,
            minor: parts.1,
            patch: parts.2,
            revision: parts.3,
            build: Vec::new(),
            pre_release,
        };
        assert(version@.build =~= Seq::empty());
        assert(version@.pre_release =~= seq![IdentifierView::Numeric(parts.4)]);
        version
    }
}

impl vstd::std_specs::convert::FromSpecImpl<(u64, u64, u64, u64, u64)> for Version {
    open spec fn obeys_from_spec() -> bool {
        false
    }

    open spec fn from_spec(parts: (u64, u64, u64, u64, u64)) -> Version {
        arbitrary()
    }
}

} // verus!
