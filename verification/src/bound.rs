//! The edges of an interval of versions, ordered as points on one line.

use vstd::prelude::*;
use crate::identifier::{Identifier, IdentifierView};
use crate::version::{
    lemma_version_order_mirror, lemma_version_order_reflexive, lemma_version_order_transitive,
    version_order, Version, VersionView,
};

verus! {

/// How an edge treats the version it names.
#[derive(Debug)]
pub enum Predicate {
    /// The version itself lies outside.
    Excluding(Version),
    /// The version itself lies inside.
    Including(Version),
    /// There is no edge on this side.
    Unbounded,
}

/// The lower or the upper edge of an interval.
#[derive(Debug)]
pub enum Bound {
    Lower(Predicate),
    Upper(Predicate),
}

/// What a [`Predicate`] stands for in specifications.
pub enum PredicateView {
    Excluding(VersionView),
    Including(VersionView),
    Unbounded,
}

/// What a [`Bound`] stands for in specifications.
pub enum BoundView {
    Lower(PredicateView),
    Upper(PredicateView),
}

impl View for Predicate {
    type V = PredicateView;

    open spec fn view(&self) -> PredicateView {
        match self {
            Predicate::Excluding(v) => PredicateView::Excluding(v@),
            Predicate::Including(v) => PredicateView::Including(v@),
            Predicate::Unbounded => PredicateView::Unbounded,
        }
    }
}

impl View for Bound {
    type V = BoundView;

    open spec fn view(&self) -> BoundView {
        match self {
            Bound::Lower(p) => BoundView::Lower(p@),
            Bound::Upper(p) => BoundView::Upper(p@),
        }
    }
}

/// Where a point lies along the line of versions.
pub enum Place {
    /// Below every version.
    Bottom,
    /// At a version.
    At(VersionView),
    /// Above every version.
    Top,
}

/// A point on the line of versions: a place, and an offset smaller than
/// any distance between two versions. The offset is -1 for "just below",
/// 0 for "exactly at" and 1 for "just above".
pub struct Position {
    pub place: Place,
    pub offset: int,
}

impl PredicateView {
    /// The predicate with inclusion and exclusion exchanged.
    pub open spec fn flip(self) -> PredicateView {
        match self {
            PredicateView::Excluding(v) => PredicateView::Including(v),
            PredicateView::Including(v) => PredicateView::Excluding(v),
            PredicateView::Unbounded => PredicateView::Unbounded,
        }
    }

    /// Whether the predicate names a version with a pre-release list.
    pub open spec fn has_pre_release(self) -> bool {
        match self {
            PredicateView::Excluding(v) => v.pre_release.len() > 0,
            PredicateView::Including(v) => v.pre_release.len() > 0,
            PredicateView::Unbounded => false,
        }
    }

    /// Whether the predicate excludes the lowest pre-release of a version:
    /// one whose pre-release list is the single number 0.
    pub open spec fn excludes_floor(self) -> bool {
        match self {
            PredicateView::Excluding(v) => v.pre_release == seq![IdentifierView::Numeric(0)],
            _ => false,
        }
    }
}

impl BoundView {
    /// The predicate of the bound, whichever side it is on.
    pub open spec fn predicate(self) -> PredicateView {
        match self {
            BoundView::Lower(p) => p,
            BoundView::Upper(p) => p,
        }
    }

    /// The point at which the bound lies. An excluding lower bound lies
    /// just above its version, an excluding upper bound just below.
    pub open spec fn position(self) -> Position {
        match self {
            BoundView::Lower(PredicateView::Unbounded) => Position {
                place: Place::Bottom,
                offset: 0,
            },
            BoundView::Upper(PredicateView::Unbounded) => Position { place: Place::Top, offset: 0 },
            BoundView::Lower(PredicateView::Including(v)) => Position {
                place: Place::At(v),
                offset: 0,
            },
            BoundView::Upper(PredicateView::Including(v)) => Position {
                place: Place::At(v),
                offset: 0,
            },
            BoundView::Lower(PredicateView::Excluding(v)) => Position {
                place: Place::At(v),
                offset: 1,
            },
            BoundView::Upper(PredicateView::Excluding(v)) => Position {
                place: Place::At(v),
                offset: -1,
            },
        }
    }
}

/// The point at which a version itself lies.
pub open spec fn version_position(v: VersionView) -> Position {
    Position { place: Place::At(v), offset: 0 }
}

/// Three-way comparison of two points: first by place, then by offset.
pub open spec fn position_order(p: Position, q: Position) -> int {
    match (p.place, q.place) {
        (Place::Bottom, Place::Bottom) => 0,
        (Place::Bottom, _) => -1,
        (_, Place::Bottom) => 1,
        (Place::Top, Place::Top) => 0,
        (Place::Top, _) => 1,
        (_, Place::Top) => -1,
        (Place::At(v), Place::At(w)) => {
            if version_order(v, w) != 0 {
                version_order(v, w)
            } else if p.offset < q.offset {
                -1
            } else if p.offset == q.offset {
                0
            } else {
                1
            }
        },
    }
}

/// Three-way comparison of two bounds, by the points at which they lie.
pub open spec fn bound_order(a: BoundView, b: BoundView) -> int {
    position_order(a.position(), b.position())
}

/// Every point equals itself.
pub proof fn lemma_position_order_reflexive(p: Position)
    ensures
        position_order(p, p) == 0,
{
    match p.place {
        Place::At(v) => {
            lemma_version_order_reflexive(v);
        },
        _ => {},
    }
}

/// Swapping the two sides of a comparison of points flips its sign.
pub proof fn lemma_position_order_mirror(p: Position, q: Position)
    ensures
        position_order(p, q) == -position_order(q, p),
        -1 <= position_order(p, q) <= 1,
{
    match (p.place, q.place) {
        (Place::At(v), Place::At(w)) => {
            lemma_version_order_mirror(v, w);
        },
        _ => {},
    }
}

/// The order of points is transitive, and strict where one step is.
pub proof fn lemma_position_order_transitive(p: Position, q: Position, r: Position)
    requires
        position_order(p, q) <= 0,
        position_order(q, r) <= 0,
    ensures
        position_order(p, r) <= 0,
        position_order(p, q) < 0 || position_order(q, r) < 0 ==> position_order(p, r) < 0,
{
    match (p.place, q.place, r.place) {
        (Place::At(u), Place::At(v), Place::At(w)) => {
            lemma_version_order_mirror(u, v);
            lemma_version_order_mirror(v, w);
            lemma_version_order_mirror(u, w);
            lemma_version_order_transitive(u, v, w);
            if version_order(u, v) == 0 && version_order(v, w) == 0 {
                lemma_version_order_transitive(w, v, u);
            }
        },
        _ => {},
    }
}

impl Predicate {
    /// The predicate with inclusion and exclusion exchanged.
    pub fn flip(&self) -> (flipped: Predicate)
        ensures
            flipped@ == self@.flip(),
    {
        match self {
            Predicate::Excluding(v) => Predicate::Including(v.clone()),
            Predicate::Including(v) => Predicate::Excluding(v.clone()),
            Predicate::Unbounded => Predicate::Unbounded,
        }
    }

    /// Whether the predicate names a version with a pre-release list.
    pub fn has_pre_release(&self) -> (yes: bool)
        ensures
            yes == self@.has_pre_release(),
    {
        match self {
            Predicate::Excluding(v) => v.is_pre_release(),
            Predicate::Including(v) => v.is_pre_release(),
            Predicate::Unbounded => false,
        }
    }

    /// Whether the predicate excludes the lowest pre-release of a
    /// version.
    pub fn excludes_floor(&self) -> (yes: bool)
        ensures
            yes == self@.excludes_floor(),
    {
        match self {
            Predicate::Excluding(v) => {
                let yes = v.pre_release.len() == 1 && match &v.pre_release[0] {
                    Identifier::Numeric(n) => *n == 0,
                    Identifier::AlphaNumeric(_) => false,
                };
                proof {
                    let list = v@.pre_release;
                    let floor = seq![IdentifierView::Numeric(0)];
                    if yes {
                        assert(list =~= floor);
                    } else if list.len() == 1 {
                        assert(list[0] == v.pre_release@[0]@);
                        assert(floor[0] == IdentifierView::Numeric(0));
                        assert(list[0] != floor[0]);
                    }
                }
                yes
            },
            _ => false,
        }
    }
}

impl Clone for Predicate {
    fn clone(&self) -> (copy: Self)
        ensures
            copy@ == self@,
    {
        match self {
            Predicate::Excluding(v) => Predicate::Excluding(v.clone()),
            Predicate::Including(v) => Predicate::Including(v.clone()),
            Predicate::Unbounded => Predicate::Unbounded,
        }
    }
}

impl Bound {
    /// The upper bound that leaves the interval open above.
    pub fn upper() -> (bound: Bound)
        ensures
            bound@ == BoundView::Upper(PredicateView::Unbounded),
    {
        Bound::Upper(Predicate::Unbounded)
    }

    /// The lower bound that leaves the interval open below.
    pub fn lower() -> (bound: Bound)
        ensures
            bound@ == BoundView::Lower(PredicateView::Unbounded),
    {
        Bound::Lower(Predicate::Unbounded)
    }

    /// A copy of the bound's predicate.
    pub fn predicate(&self) -> (predicate: Predicate)
        ensures
            predicate@ == self@.predicate(),
    {
        match self {
            Bound::Lower(p) => p.clone(),
            Bound::Upper(p) => p.clone(),
        }
    }

    /// Whether this is a lower bound.
    pub fn is_lower(&self) -> (yes: bool)
        ensures
            yes == (self@ is Lower),
    {
        match self {
            Bound::Lower(_) => true,
            Bound::Upper(_) => false,
        }
    }

    /// The version that the bound names, if it names one.
    pub fn anchor(&self) -> (anchor: Option<&Version>)
        ensures
            match anchor {
                Some(v) => self@.position().place == Place::At(v@),
                None => !(self@.position().place is At),
            },
    {
        match self {
            Bound::Lower(Predicate::Excluding(v)) => Some(v),
            Bound::Lower(Predicate::Including(v)) => Some(v),
            Bound::Upper(Predicate::Excluding(v)) => Some(v),
            Bound::Upper(Predicate::Including(v)) => Some(v),
            _ => None,
        }
    }

    fn offset(&self) -> (offset: i8)
        ensures
            offset == self@.position().offset,
    {
        match self {
            Bound::Lower(Predicate::Excluding(_)) => 1,
            Bound::Upper(Predicate::Excluding(_)) => -1,
            _ => 0,
        }
    }

    /// Three-way comparison with `other`: -1 where `self` lies lower, 0
    /// where the two lie at the same point, 1 where `other` lies lower.
    pub fn sign(&self, other: &Bound) -> (sign: i8)
        ensures
            sign == bound_order(self@, other@),
    {
        match (self.anchor(), other.anchor()) {
            (None, None) => {
                if self.is_lower() == other.is_lower() {
                    0
                } else if self.is_lower() {
                    -1
                } else {
                    1
                }
            },
            (None, Some(_)) => {
                if self.is_lower() {
                    -1
                } else {
                    1
                }
            },
            (Some(_), None) => {
                if other.is_lower() {
                    1
                } else {
                    -1
                }
            },
            (Some(v), Some(w)) => {
                let by_version = v.sign(w);
                if by_version != 0 {
                    by_version
                } else if self.offset() < other.offset() {
                    -1
                } else if self.offset() == other.offset() {
                    0
                } else {
                    1
                }
            },
        }
    }

    /// Three-way comparison with the point at which `version` lies.
    pub fn sign_against(&self, version: &Version) -> (sign: i8)
        ensures
            sign == position_order(self@.position(), version_position(version@)),
    {
        match self.anchor() {
            None => {
                if self.is_lower() {
                    -1
                } else {
                    1
                }
            },
            Some(v) => {
                let by_version = v.sign(version);
                if by_version != 0 {
                    by_version
                } else {
                    self.offset()
                }
            },
        }
    }
}

impl Clone for Bound {
    fn clone(&self) -> (copy: Self)
        ensures
            copy@ == self@,
    {
        match self {
            Bound::Lower(p) => Bound::Lower(p.clone()),
            Bound::Upper(p) => Bound::Upper(p.clone()),
        }
    }
}

impl PredicateView {
    /// Both predicates are of the same kind and name equal versions.
    pub open spec fn same(self, other: PredicateView) -> bool {
        match (self, other) {
            (PredicateView::Excluding(v), PredicateView::Excluding(w)) => version_order(v, w) == 0,
            (PredicateView::Including(v), PredicateView::Including(w)) => version_order(v, w) == 0,
            (PredicateView::Unbounded, PredicateView::Unbounded) => true,
            _ => false,
        }
    }
}

impl BoundView {
    /// Both bounds are on the same side and have the same predicate.
    pub open spec fn same(self, other: BoundView) -> bool {
        match (self, other) {
            (BoundView::Lower(p), BoundView::Lower(q)) => p.same(q),
            (BoundView::Upper(p), BoundView::Upper(q)) => p.same(q),
            _ => false,
        }
    }
}

impl PartialEq for Predicate {
    fn eq(&self, other: &Self) -> (equal: bool) {
        match (self, other) {
            (Predicate::Excluding(v), Predicate::Excluding(w)) => v.sign(w) == 0,
            (Predicate::Including(v), Predicate::Including(w)) => v.sign(w) == 0,
            (Predicate::Unbounded, Predicate::Unbounded) => true,
            _ => false,
        }
    }
}

impl vstd::std_specs::cmp::PartialEqSpecImpl for Predicate {
    open spec fn obeys_eq_spec() -> bool {
        true
    }

    open spec fn eq_spec(&self, other: &Self) -> bool {
        self@.same(other@)
    }
}

impl Eq for Predicate {

}

impl PartialEq for Bound {
    fn eq(&self, other: &Self) -> (equal: bool) {
        match (self, other) {
            (Bound::Lower(p), Bound::Lower(q)) => p == q,
            (Bound::Upper(p), Bound::Upper(q)) => p == q,
            _ => false,
        }
    }
}

impl vstd::std_specs::cmp::PartialEqSpecImpl for Bound {
    open spec fn obeys_eq_spec() -> bool {
        true
    }

    open spec fn eq_spec(&self, other: &Self) -> bool {
        self@.same(other@)
    }
}

impl Eq for Bound {

}

} // verus!
