//! One contiguous interval of versions.

use vstd::prelude::*;
use crate::bound::{
    bound_order, lemma_position_order_mirror, lemma_position_order_reflexive,
    lemma_position_order_transitive, position_order, version_position, Bound, BoundView,
    PredicateView,
};
use crate::version::{lemma_version_order_mirror, Version, VersionView};

verus! {

/// An interval of versions between a lower and an upper bound.
///
/// `floating` records that the interval was written with a wildcard or an
/// operator; it does not change which versions the interval holds.
#[derive(Debug)]
pub struct ComparatorSet {
    floating: bool,
    upper: Bound,
    lower: Bound,
}

/// What a [`ComparatorSet`] stands for in specifications.
pub struct ComparatorSetView {
    pub floating: bool,
    pub lower: BoundView,
    pub upper: BoundView,
}

impl View for ComparatorSet {
    type V = ComparatorSetView;

    closed spec fn view(&self) -> ComparatorSetView {
        ComparatorSetView { floating: self.floating, lower: self.lower@, upper: self.upper@ }
    }
}

/// The later of two lower bounds; the second where they lie at one point.
pub open spec fn later_bound(a: BoundView, b: BoundView) -> BoundView {
    if bound_order(a, b) <= 0 {
        b
    } else {
        a
    }
}

/// The earlier of two upper bounds; the first where they lie at one point.
pub open spec fn earlier_bound(a: BoundView, b: BoundView) -> BoundView {
    if bound_order(a, b) <= 0 {
        a
    } else {
        b
    }
}

/// Whether `version` lies in one of `sets`.
pub open spec fn any_satisfies(sets: Seq<ComparatorSetView>, version: VersionView) -> bool {
    exists|i: int| 0 <= i < sets.len() && (#[trigger] sets[i]).satisfies(version)
}

impl ComparatorSetView {
    /// The lower edge is a lower bound, the upper edge an upper bound, and
    /// the lower edge lies no higher than the upper one.
    pub open spec fn well_formed(self) -> bool {
        &&& self.lower is Lower
        &&& self.upper is Upper
        &&& bound_order(self.lower, self.upper) <= 0
    }

    /// `version` lies no lower than the lower edge and no higher than the
    /// upper one.
    pub open spec fn satisfies(self, version: VersionView) -> bool {
        &&& position_order(self.lower.position(), version_position(version)) <= 0
        &&& position_order(version_position(version), self.upper.position()) <= 0
    }

    /// One of the edges names a pre-release: a version with a pre-release
    /// list.
    ///
    /// An upper edge that excludes the lowest pre-release of a version
    /// does not count. It opens the interval to no pre-release of that
    /// version, and is what rounding a partial version up gives.
    pub open spec fn has_pre_release(self) -> bool {
        self.lower.predicate().has_pre_release() || (self.upper.predicate().has_pre_release()
            && !self.upper.predicate().excludes_floor())
    }

    /// `other` lies within `self`.
    pub open spec fn allows_all(self, other: ComparatorSetView) -> bool {
        bound_order(self.lower, other.lower) <= 0 && bound_order(other.upper, self.upper) <= 0
    }

    /// `other` and `self` overlap.
    pub open spec fn allows_any(self, other: ComparatorSetView) -> bool {
        !(bound_order(other.upper, self.lower) < 0) && !(bound_order(self.upper, other.lower)
            < 0)
    }

    /// The interval from the later lower edge to the earlier upper edge,
    /// or nothing where that interval is empty.
    pub open spec fn intersect(self, other: ComparatorSetView) -> Option<ComparatorSetView> {
        let lower = later_bound(self.lower, other.lower);
        let upper = earlier_bound(self.upper, other.upper);
        if bound_order(lower, upper) <= 0 {
            Some(ComparatorSetView { floating: self.floating || other.floating, lower, upper })
        } else {
            None
        }
    }

    /// The part of `self` below `overlap`, ending where `overlap` starts.
    pub open spec fn below(self, overlap: ComparatorSetView, floating: bool) -> ComparatorSetView {
        ComparatorSetView {
            floating,
            lower: self.lower,
            upper: BoundView::Upper(overlap.lower.predicate().flip()),
        }
    }

    /// The part of `self` above `overlap`, starting where `overlap` ends.
    pub open spec fn above(self, overlap: ComparatorSetView, floating: bool) -> ComparatorSetView {
        ComparatorSetView {
            floating,
            lower: BoundView::Lower(overlap.upper.predicate().flip()),
            upper: self.upper,
        }
    }

    /// What is left of `self` once `other` is taken out: `self` where the
    /// two do not overlap; nothing where the overlap reaches both edges of
    /// `self`; otherwise the part below the overlap, the part above it, or
    /// both in that order.
    pub open spec fn difference(self, other: ComparatorSetView) -> Option<
        Seq<ComparatorSetView>,
    > {
        let floating = self.floating || other.floating;
        match self.intersect(other) {
            None => Some(seq![self]),
            Some(overlap) => {
                let low = bound_order(self.lower, overlap.lower) < 0;
                let high = bound_order(overlap.upper, self.upper) < 0;
                if low && high {
                    Some(seq![self.below(overlap, floating), self.above(overlap, floating)])
                } else if low {
                    Some(seq![self.below(overlap, floating)])
                } else if high {
                    Some(seq![self.above(overlap, floating)])
                } else {
                    None
                }
            },
        }
    }
}

/// A version lies at or below the flipped form of a lower bound exactly
/// when it lies below that bound.
pub proof fn lemma_flip_lower(lower: BoundView, version: VersionView)
    requires
        lower is Lower,
        !(lower.predicate() is Unbounded),
    ensures
        position_order(
            version_position(version),
            BoundView::Upper(lower.predicate().flip()).position(),
        ) <= 0 <==> position_order(lower.position(), version_position(version)) > 0,
{
    match lower.predicate() {
        PredicateView::Including(x) => {
            lemma_version_order_mirror(x, version);
        },
        PredicateView::Excluding(x) => {
            lemma_version_order_mirror(x, version);
        },
        PredicateView::Unbounded => {},
    }
}

/// A version lies at or above the flipped form of an upper bound exactly
/// when it lies above that bound.
pub proof fn lemma_flip_upper(upper: BoundView, version: VersionView)
    requires
        upper is Upper,
        !(upper.predicate() is Unbounded),
    ensures
        position_order(
            BoundView::Lower(upper.predicate().flip()).position(),
            version_position(version),
        ) <= 0 <==> position_order(version_position(version), upper.position()) > 0,
{
    match upper.predicate() {
        PredicateView::Including(x) => {
            lemma_version_order_mirror(x, version);
        },
        PredicateView::Excluding(x) => {
            lemma_version_order_mirror(x, version);
        },
        PredicateView::Unbounded => {},
    }
}

/// The intersection of two intervals holds exactly the versions that lie
/// in both; where there is none, no version lies in both.
pub proof fn lemma_intersect_exact(a: ComparatorSetView, b: ComparatorSetView, version: VersionView)
    requires
        a.well_formed(),
        b.well_formed(),
    ensures
        match a.intersect(b) {
            Some(both) => both.well_formed() && (both.satisfies(version) <==> a.satisfies(version)
                && b.satisfies(version)),
            None => !(a.satisfies(version) && b.satisfies(version)),
        },
{
    let p = version_position(version);
    let lower = later_bound(a.lower, b.lower);
    let upper = earlier_bound(a.upper, b.upper);
    lemma_position_order_mirror(a.lower.position(), b.lower.position());
    lemma_position_order_mirror(a.upper.position(), b.upper.position());
    if position_order(lower.position(), p) <= 0 {
        if bound_order(a.lower, b.lower) <= 0 {
            lemma_position_order_transitive(a.lower.position(), b.lower.position(), p);
        } else {
            lemma_position_order_transitive(b.lower.position(), a.lower.position(), p);
        }
    }
    if position_order(p, upper.position()) <= 0 {
        if bound_order(a.upper, b.upper) <= 0 {
            lemma_position_order_transitive(p, a.upper.position(), b.upper.position());
        } else {
            lemma_position_order_transitive(p, b.upper.position(), a.upper.position());
        }
    }
    if a.satisfies(version) && b.satisfies(version) {
        lemma_position_order_transitive(lower.position(), p, upper.position());
    }
}

/// Intersecting in either order gives intervals with edges at the same
/// points and the same floating mark, or nothing both times.
pub proof fn lemma_intersect_commutes(a: ComparatorSetView, b: ComparatorSetView)
    ensures
        match (a.intersect(b), b.intersect(a)) {
            (Some(ab), Some(ba)) => {
                &&& bound_order(ab.lower, ba.lower) == 0
                &&& bound_order(ab.upper, ba.upper) == 0
                &&& ab.floating == ba.floating
            },
            (None, None) => true,
            _ => false,
        },
{
    let l1 = later_bound(a.lower, b.lower);
    let l2 = later_bound(b.lower, a.lower);
    let u1 = earlier_bound(a.upper, b.upper);
    let u2 = earlier_bound(b.upper, a.upper);
    lemma_position_order_mirror(a.lower.position(), b.lower.position());
    lemma_position_order_mirror(a.upper.position(), b.upper.position());
    lemma_position_order_reflexive(a.lower.position());
    lemma_position_order_reflexive(b.lower.position());
    lemma_position_order_reflexive(a.upper.position());
    lemma_position_order_reflexive(b.upper.position());
    assert(bound_order(l1, l2) == 0);
    assert(bound_order(u1, u2) == 0);
    lemma_position_order_mirror(l1.position(), l2.position());
    lemma_position_order_mirror(u1.position(), u2.position());
    lemma_position_order_mirror(l1.position(), u1.position());
    lemma_position_order_mirror(l2.position(), u2.position());
    if bound_order(l1, u1) <= 0 {
        lemma_position_order_transitive(l2.position(), l1.position(), u1.position());
        lemma_position_order_transitive(l2.position(), u1.position(), u2.position());
    }
    if bound_order(l2, u2) <= 0 {
        lemma_position_order_transitive(l1.position(), l2.position(), u2.position());
        lemma_position_order_transitive(l1.position(), u2.position(), u1.position());
    }
}

/// Taking an interval out of itself leaves nothing.
pub proof fn lemma_difference_of_self(a: ComparatorSetView)
    requires
        a.well_formed(),
    ensures
        a.difference(a) is None,
{
    lemma_position_order_reflexive(a.lower.position());
    lemma_position_order_reflexive(a.upper.position());
}

/// What is left of `a` once `b` is taken out holds exactly the versions
/// that lie in `a` and not in `b`, in well-formed intervals.
pub proof fn lemma_difference_exact(a: ComparatorSetView, b: ComparatorSetView, version: VersionView)
    requires
        a.well_formed(),
        b.well_formed(),
    ensures
        match a.difference(b) {
            Some(rest) => {
                &&& 1 <= rest.len() <= 2
                &&& forall|i: int| 0 <= i < rest.len() ==> (#[trigger] rest[i]).well_formed()
                &&& any_satisfies(rest, version) <==> a.satisfies(version) && !b.satisfies(
                    version,
                )
            },
            None => !(a.satisfies(version) && !b.satisfies(version)),
        },
{
    let p = version_position(version);
    let floating = a.floating || b.floating;
    lemma_intersect_exact(a, b, version);
    match a.intersect(b) {
        None => {
            let rest = seq![a];
            assert(rest[0] == a);
            assert(any_satisfies(rest, version) <==> a.satisfies(version));
        },
        Some(overlap) => {
            let low = bound_order(a.lower, overlap.lower) < 0;
            let high = bound_order(overlap.upper, a.upper) < 0;
            let below = a.below(overlap, floating);
            let above = a.above(overlap, floating);
            lemma_position_order_mirror(a.lower.position(), overlap.lower.position());
            lemma_position_order_mirror(overlap.upper.position(), a.upper.position());
            lemma_position_order_mirror(overlap.lower.position(), p);
            lemma_position_order_mirror(p, overlap.upper.position());
            lemma_position_order_mirror(a.lower.position(), p);
            lemma_position_order_mirror(p, a.upper.position());
            lemma_position_order_mirror(a.lower.position(), b.lower.position());
            lemma_position_order_mirror(a.upper.position(), b.upper.position());
            if low {
                lemma_flip_lower(overlap.lower, version);
                lemma_below_well_formed(a, overlap, floating);
                if below.satisfies(version) {
                    lemma_position_order_transitive(p, overlap.lower.position(), overlap.upper.position());
                    lemma_position_order_transitive(p, overlap.upper.position(), a.upper.position());
                }
            } else {
                if a.satisfies(version) && position_order(p, overlap.lower.position()) < 0 {
                    lemma_position_order_transitive(overlap.lower.position(), a.lower.position(), p);
                }
            }
            if high {
                lemma_flip_upper(overlap.upper, version);
                lemma_above_well_formed(a, overlap, floating);
                if above.satisfies(version) {
                    lemma_position_order_transitive(overlap.lower.position(), overlap.upper.position(), p);
                    lemma_position_order_transitive(a.lower.position(), overlap.lower.position(), p);
                }
            } else {
                if a.satisfies(version) && position_order(overlap.upper.position(), p) < 0 {
                    lemma_position_order_transitive(p, a.upper.position(), overlap.upper.position());
                }
            }
            if low && high {
                let rest = seq![below, above];
                assert(rest[0] == below && rest[1] == above);
                assert(any_satisfies(rest, version) <==> below.satisfies(version)
                    || above.satisfies(version));
            } else if low {
                let rest = seq![below];
                assert(rest[0] == below);
                assert(any_satisfies(rest, version) <==> below.satisfies(version));
            } else if high {
                let rest = seq![above];
                assert(rest[0] == above);
                assert(any_satisfies(rest, version) <==> above.satisfies(version));
            }
        },
    }
}

/// The part below an overlap that starts above the lower edge is an
/// interval.
pub proof fn lemma_below_well_formed(
    a: ComparatorSetView,
    overlap: ComparatorSetView,
    floating: bool,
)
    requires
        a.well_formed(),
        overlap.lower is Lower,
        bound_order(a.lower, overlap.lower) < 0,
    ensures
        a.below(overlap, floating).well_formed(),
        !(overlap.lower.predicate() is Unbounded),
{
    match (a.lower.predicate(), overlap.lower.predicate()) {
        (PredicateView::Including(x), PredicateView::Including(y)) => {},
        (PredicateView::Including(x), PredicateView::Excluding(y)) => {},
        (PredicateView::Excluding(x), PredicateView::Including(y)) => {},
        (PredicateView::Excluding(x), PredicateView::Excluding(y)) => {},
        _ => {},
    }
}

/// The part above an overlap that ends below the upper edge is an
/// interval.
pub proof fn lemma_above_well_formed(
    a: ComparatorSetView,
    overlap: ComparatorSetView,
    floating: bool,
)
    requires
        a.well_formed(),
        overlap.upper is Upper,
        bound_order(overlap.upper, a.upper) < 0,
    ensures
        a.above(overlap, floating).well_formed(),
        !(overlap.upper.predicate() is Unbounded),
{
    match (overlap.upper.predicate(), a.upper.predicate()) {
        (PredicateView::Including(x), PredicateView::Including(y)) => {},
        (PredicateView::Including(x), PredicateView::Excluding(y)) => {},
        (PredicateView::Excluding(x), PredicateView::Including(y)) => {},
        (PredicateView::Excluding(x), PredicateView::Excluding(y)) => {},
        _ => {},
    }
}

/// Every version of an interval lies either in what is left of it once
/// `b` is taken out or in what it shares with `b`, and nothing else does.
pub proof fn lemma_difference_partitions(
    a: ComparatorSetView,
    b: ComparatorSetView,
    version: VersionView,
)
    requires
        a.well_formed(),
        b.well_formed(),
    ensures
        a.satisfies(version) <==> (match a.difference(b) {
            Some(rest) => any_satisfies(rest, version),
            None => false,
        }) || (match a.intersect(b) {
            Some(both) => both.satisfies(version),
            None => false,
        }),
{
    lemma_intersect_exact(a, b, version);
    lemma_difference_exact(a, b, version);
}

impl ComparatorSet {
    #[verifier::type_invariant]
    closed spec fn valid(self) -> bool {
        self@.well_formed()
    }

    /// The interval from `lower` to `upper`, if there is one: `lower` has
    /// to be a lower bound, `upper` an upper bound, and `lower` may not lie
    /// above `upper`.
    pub fn new(lower: Bound, upper: Bound, floating: bool) -> (set: Option<ComparatorSet>)
        ensures
            match set {
                Some(s) => s@ == (ComparatorSetView { floating, lower: lower@, upper: upper@ })
                    && s@.well_formed(),
                None => !(ComparatorSetView { floating, lower: lower@, upper: upper@ })
                    .well_formed(),
            },
    {
        if lower.is_lower() && !upper.is_lower() && lower.sign(&upper) <= 0 {
            Some(ComparatorSet { floating, upper, lower })
        } else {
            None
        }
    }

    /// The interval that holds every version.
    pub fn everything(floating: bool) -> (set: ComparatorSet)
        ensures
            set@ == (ComparatorSetView {
                floating,
                lower: BoundView::Lower(PredicateView::Unbounded),
                upper: BoundView::Upper(PredicateView::Unbounded),
            }),
            set@.well_formed(),
    {
        ComparatorSet { floating, upper: Bound::upper(), lower: Bound::lower() }
    }

    /// The lower edge.
    pub fn lower(&self) -> (bound: &Bound)
        ensures
            bound@ == self@.lower,
    {
        &self.lower
    }

    /// The upper edge.
    pub fn upper(&self) -> (bound: &Bound)
        ensures
            bound@ == self@.upper,
    {
        &self.upper
    }

    /// Whether the interval was written with a wildcard or an operator.
    pub fn is_floating(&self) -> (yes: bool)
        ensures
            yes == self@.floating,
    {
        self.floating
    }

    /// Whether one of the edges names a version with a pre-release list.
    pub fn has_pre(&self) -> (yes: bool)
        ensures
            yes == self@.has_pre_release(),
    {
        let lower = match &self.lower {
            Bound::Lower(p) => p.has_pre_release(),
            Bound::Upper(p) => p.has_pre_release(),
        };
        let upper = match &self.upper {
            Bound::Lower(p) => p.has_pre_release() && !p.excludes_floor(),
            Bound::Upper(p) => p.has_pre_release() && !p.excludes_floor(),
        };
        lower || upper
    }

    /// Whether `version` lies in the interval.
    pub fn satisfies(&self, version: &Version) -> (yes: bool)
        ensures
            yes == self@.satisfies(version@),
    {
        proof {
            lemma_position_order_mirror(self@.upper.position(), version_position(version@));
        }
        self.lower.sign_against(version) <= 0 && self.upper.sign_against(version) >= 0
    }

    /// Whether `other` lies within this interval.
    pub fn allows_all(&self, other: &ComparatorSet) -> (yes: bool)
        ensures
            yes == self@.allows_all(other@),
    {
        self.lower.sign(&other.lower) <= 0 && other.upper.sign(&self.upper) <= 0
    }

    /// Whether `other` and this interval overlap.
    pub fn allows_any(&self, other: &ComparatorSet) -> (yes: bool)
        ensures
            yes == self@.allows_any(other@),
    {
        if other.upper.sign(&self.lower) < 0 {
            return false;
        }
        if self.upper.sign(&other.lower) < 0 {
            return false;
        }
        true
    }

    /// What this interval shares with `other`.
    pub fn intersect(&self, other: &ComparatorSet) -> (both: Option<ComparatorSet>)
        ensures
            both.is_some() == self@.intersect(other@).is_some(),
            both.is_some() ==> both.unwrap()@ == self@.intersect(other@).unwrap()
                && both.unwrap()@.well_formed(),
    {
        proof {
            use_type_invariant(self);
            use_type_invariant(other);
        }
        let lower = if self.lower.sign(&other.lower) <= 0 {
            &other.lower
        } else {
            &self.lower
        };
        let upper = if self.upper.sign(&other.upper) <= 0 {
            &self.upper
        } else {
            &other.upper
        };
        ComparatorSet::new(lower.clone(), upper.clone(), self.floating || other.floating)
    }

    /// What is left of this interval once `other` is taken out.
    pub fn difference(&self, other: &ComparatorSet) -> (rest: Option<Vec<ComparatorSet>>)
        ensures
            rest.is_some() == self@.difference(other@).is_some(),
            rest.is_some() ==> comparators_view(rest.unwrap()@) == self@.difference(
                other@,
            ).unwrap(),
            rest.is_some() ==> forall|i: int|
                0 <= i < rest.unwrap()@.len() ==> (#[trigger] rest.unwrap()@[i])@.well_formed(),
    {
        proof {
            use_type_invariant(self);
            use_type_invariant(other);
        }
        let floating = self.floating || other.floating;
        match self.intersect(other) {
            None => {
                let mut rest: Vec<ComparatorSet> = Vec::new();
                rest.push(self.clone());
                assert(comparators_view(rest@) =~= seq![self@]);
                Some(rest)
            },
            Some(overlap) => {
                let low = self.lower.sign(&overlap.lower) < 0;
                let high = overlap.upper.sign(&self.upper) < 0;
                let mut rest: Vec<ComparatorSet> = Vec::new();
                if low {
                    proof {
                        lemma_below_well_formed(self@, overlap@, floating);
                    }
                    rest.push(
                        ComparatorSet {
                            floating,
                            lower: self.lower.clone(),
                            upper: Bound::Upper(overlap.lower.predicate().flip()),
                        },
                    );
                }
                if high {
                    proof {
                        lemma_above_well_formed(self@, overlap@, floating);
                    }
                    rest.push(
                        ComparatorSet {
                            floating,
                            lower: Bound::Lower(overlap.upper.predicate().flip()),
                            upper: self.upper.clone(),
                        },
                    );
                }
                if rest.len() == 0 {
                    None
                } else {
                    assert(comparators_view(rest@) =~= self@.difference(other@).unwrap());
                    Some(rest)
                }
            },
        }
    }
}

impl Clone for ComparatorSet {
    fn clone(&self) -> (copy: Self)
        ensures
            copy@ == self@,
    {
        proof {
            use_type_invariant(self);
        }
        ComparatorSet {
            floating: self.floating,
            upper: self.upper.clone(),
            lower: self.lower.clone(),
        }
    }
}

/// The views of a list of intervals, in order.
pub open spec fn comparators_view(list: Seq<ComparatorSet>) -> Seq<ComparatorSetView> {
    Seq::new(list.len(), |i: int| list[i]@)
}

impl ComparatorSetView {
    /// Both intervals have the same floating mark and the same edges.
    pub open spec fn same(self, other: ComparatorSetView) -> bool {
        &&& self.floating == other.floating
        &&& self.lower.same(other.lower)
        &&& self.upper.same(other.upper)
    }
}

impl PartialEq for ComparatorSet {
    fn eq(&self, other: &Self) -> (equal: bool) {
        self.floating == other.floating && self.lower == other.lower && self.upper == other.upper
    }
}

impl vstd::std_specs::cmp::PartialEqSpecImpl for ComparatorSet {
    open spec fn obeys_eq_spec() -> bool {
        true
    }

    open spec fn eq_spec(&self, other: &Self) -> bool {
        self@.same(other@)
    }
}

impl Eq for ComparatorSet {

}

} // verus!
