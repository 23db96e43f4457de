//! Ranges: unions of intervals of versions.

use vstd::prelude::*;
use crate::comparator::{
    any_satisfies, comparators_view, lemma_difference_exact, lemma_intersect_commutes,
    lemma_intersect_exact, ComparatorSet, ComparatorSetView,
};
use crate::bound::{lemma_position_order_mirror, lemma_position_order_transitive};
use crate::version::{Version, VersionView};

verus! {

/// A constraint on versions: one or more intervals, any of which may hold
/// the version.
#[derive(Debug)]
pub struct Range {
    comparators: Vec<ComparatorSet>,
}

/// What a [`Range`] stands for in specifications: its intervals, in order.
pub struct RangeView {
    pub comparators: Seq<ComparatorSetView>,
}

impl View for Range {
    type V = RangeView;

    closed spec fn view(&self) -> RangeView {
        RangeView { comparators: comparators_view(self.comparators@) }
    }
}

/// What `x` and `y` share, as a list of no or one interval.
pub open spec fn shared_piece(x: ComparatorSetView, y: ComparatorSetView) -> Seq<
    ComparatorSetView,
> {
    match x.intersect(y) {
        Some(both) => seq![both],
        None => Seq::empty(),
    }
}

/// What is left of `x` without `y`, as a list of no, one or two intervals.
pub open spec fn left_pieces(x: ComparatorSetView, y: ComparatorSetView) -> Seq<
    ComparatorSetView,
> {
    match x.difference(y) {
        Some(rest) => rest,
        None => Seq::empty(),
    }
}

/// The shared pieces of every pair `(a[p], b[q])` that comes before the
/// pair `(a[i], b[j])`, the pairs taken row by row.
pub open spec fn shared_before(
    a: Seq<ComparatorSetView>,
    b: Seq<ComparatorSetView>,
    i: int,
    j: int,
) -> Seq<ComparatorSetView>
    decreases i, j,
{
    if i < 0 || j < 0 {
        Seq::empty()
    } else if j > 0 {
        shared_before(a, b, i, j - 1) + shared_piece(a[i], b[j - 1])
    } else if i > 0 {
        shared_before(a, b, i - 1, b.len() as int)
    } else {
        Seq::empty()
    }
}

/// The left pieces of every pair `(a[p], b[q])` that comes before the pair
/// `(a[i], b[j])`, the pairs taken row by row.
pub open spec fn left_before(
    a: Seq<ComparatorSetView>,
    b: Seq<ComparatorSetView>,
    i: int,
    j: int,
) -> Seq<ComparatorSetView>
    decreases i, j,
{
    if i < 0 || j < 0 {
        Seq::empty()
    } else if j > 0 {
        left_before(a, b, i, j - 1) + left_pieces(a[i], b[j - 1])
    } else if i > 0 {
        left_before(a, b, i - 1, b.len() as int)
    } else {
        Seq::empty()
    }
}

impl RangeView {
    /// There is at least one interval, and each is well formed.
    pub open spec fn well_formed(self) -> bool {
        &&& self.comparators.len() > 0
        &&& forall|i: int|
            0 <= i < self.comparators.len() ==> (#[trigger] self.comparators[i]).well_formed()
    }

    /// Some interval holds `version`.
    pub open spec fn satisfies(self, version: VersionView) -> bool {
        any_satisfies(self.comparators, version)
    }

    /// Some interval is floating.
    pub open spec fn is_floating(self) -> bool {
        exists|i: int| 0 <= i < self.comparators.len() && (#[trigger] self.comparators[i]).floating
    }

    /// Some interval names a pre-release.
    pub open spec fn has_pre_release(self) -> bool {
        exists|i: int|
            0 <= i < self.comparators.len() && (#[trigger] self.comparators[i]).has_pre_release()
    }

    /// Some interval of `self` holds some interval of `other` whole.
    ///
    /// For ranges of one interval each this is containment. For unions it
    /// is weaker than asking that all of `other` lie within `self`, and
    /// stronger where `other` is covered only by several intervals
    /// together.
    pub open spec fn allows_all(self, other: RangeView) -> bool {
        exists|i: int, j: int|
            0 <= i < self.comparators.len() && 0 <= j < other.comparators.len() && (
            #[trigger] self.comparators[i]).allows_all(#[trigger] other.comparators[j])
    }

    /// Some interval of `self` overlaps some interval of `other`.
    pub open spec fn allows_any(self, other: RangeView) -> bool {
        exists|i: int, j: int|
            0 <= i < self.comparators.len() && 0 <= j < other.comparators.len() && (
            #[trigger] self.comparators[i]).allows_any(#[trigger] other.comparators[j])
    }

    /// The shared pieces of all pairs of intervals, row by row.
    pub open spec fn shared(self, other: RangeView) -> Seq<ComparatorSetView> {
        shared_before(self.comparators, other.comparators, self.comparators.len() as int, 0)
    }

    /// The left pieces of all pairs of intervals, row by row.
    pub open spec fn left(self, other: RangeView) -> Seq<ComparatorSetView> {
        left_before(self.comparators, other.comparators, self.comparators.len() as int, 0)
    }

    /// The range of the shared pieces, or nothing where there is none.
    pub open spec fn intersect(self, other: RangeView) -> Option<RangeView> {
        if self.shared(other).len() == 0 {
            None
        } else {
            Some(RangeView { comparators: self.shared(other) })
        }
    }

    /// The range of the left pieces, or nothing where there is none.
    ///
    /// Each interval of `self` is cut by each interval of `other` on its
    /// own: where `other` has several intervals, a version of `self` stays
    /// as soon as one of them does not hold it.
    pub open spec fn difference(self, other: RangeView) -> Option<RangeView> {
        if self.left(other).len() == 0 {
            None
        } else {
            Some(RangeView { comparators: self.left(other) })
        }
    }
}

/// A version lies in a joined list exactly when it lies in one part.
pub proof fn lemma_any_satisfies_joined(
    s: Seq<ComparatorSetView>,
    t: Seq<ComparatorSetView>,
    version: VersionView,
)
    ensures
        any_satisfies(s + t, version) <==> any_satisfies(s, version) || any_satisfies(t, version),
{
    let st = s + t;
    if any_satisfies(s, version) {
        let i = choose|i: int| 0 <= i < s.len() && (#[trigger] s[i]).satisfies(version);
        assert(st[i] == s[i]);
    }
    if any_satisfies(t, version) {
        let i = choose|i: int| 0 <= i < t.len() && (#[trigger] t[i]).satisfies(version);
        assert(st[s.len() + i] == t[i]);
    }
    if any_satisfies(st, version) {
        let i = choose|i: int| 0 <= i < st.len() && (#[trigger] st[i]).satisfies(version);
        if i < s.len() {
            assert(st[i] == s[i]);
        } else {
            assert(st[i] == t[i - s.len()]);
        }
    }
}

/// Whether `(i, j)` is a place at which the pairs of `a` and `b` can be
/// cut: within a row, or at the very end.
pub open spec fn cut_at(a: Seq<ComparatorSetView>, b: Seq<ComparatorSetView>, i: int, j: int) -> bool {
    (0 <= i < a.len() && 0 <= j <= b.len()) || (i == a.len() && j == 0)
}

/// Every interval of `s` is well formed.
pub open spec fn all_well_formed(s: Seq<ComparatorSetView>) -> bool {
    forall|i: int| 0 <= i < s.len() ==> (#[trigger] s[i]).well_formed()
}

/// Shared pieces are well formed, and a version in one of them lies in an
/// interval of each side.
pub proof fn lemma_shared_before_sound(
    a: Seq<ComparatorSetView>,
    b: Seq<ComparatorSetView>,
    i: int,
    j: int,
    version: VersionView,
)
    requires
        all_well_formed(a),
        all_well_formed(b),
        cut_at(a, b, i, j),
    ensures
        all_well_formed(shared_before(a, b, i, j)),
        any_satisfies(shared_before(a, b, i, j), version) ==> any_satisfies(a, version)
            && any_satisfies(b, version),
    decreases i, j,
{
    if j > 0 {
        lemma_shared_before_sound(a, b, i, j - 1, version);
        lemma_intersect_exact(a[i], b[j - 1], version);
        let piece = shared_piece(a[i], b[j - 1]);
        lemma_any_satisfies_joined(shared_before(a, b, i, j - 1), piece, version);
        if any_satisfies(piece, version) {
            assert(piece[0].satisfies(version));
            assert(a[i].satisfies(version) && b[j - 1].satisfies(version));
        }
    } else if i > 0 {
        lemma_shared_before_sound(a, b, i - 1, b.len() as int, version);
    }
}

/// A version that lies in `a[p]` and in `b[q]` lies in a shared piece as
/// soon as the pair `(p, q)` has been passed.
pub proof fn lemma_shared_before_complete(
    a: Seq<ComparatorSetView>,
    b: Seq<ComparatorSetView>,
    i: int,
    j: int,
    p: int,
    q: int,
    version: VersionView,
)
    requires
        all_well_formed(a),
        all_well_formed(b),
        cut_at(a, b, i, j),
        0 <= p < a.len(),
        0 <= q < b.len(),
        p < i || (p == i && q < j),
        a[p].satisfies(version),
        b[q].satisfies(version),
    ensures
        any_satisfies(shared_before(a, b, i, j), version),
    decreases i, j,
{
    if j > 0 {
        let piece = shared_piece(a[i], b[j - 1]);
        lemma_any_satisfies_joined(shared_before(a, b, i, j - 1), piece, version);
        if p == i && q == j - 1 {
            lemma_intersect_exact(a[i], b[j - 1], version);
            assert(piece[0].satisfies(version));
        } else {
            lemma_shared_before_complete(a, b, i, j - 1, p, q, version);
        }
    } else {
        lemma_shared_before_complete(a, b, i - 1, b.len() as int, p, q, version);
    }
}

/// Left pieces are well formed, and a version in one of them lies in an
/// interval of `a` and outside an interval of `b`.
pub proof fn lemma_left_before_sound(
    a: Seq<ComparatorSetView>,
    b: Seq<ComparatorSetView>,
    i: int,
    j: int,
    version: VersionView,
)
    requires
        all_well_formed(a),
        all_well_formed(b),
        cut_at(a, b, i, j),
    ensures
        all_well_formed(left_before(a, b, i, j)),
        any_satisfies(left_before(a, b, i, j), version) ==> exists|p: int, q: int|
            0 <= p < a.len() && 0 <= q < b.len() && (#[trigger] a[p]).satisfies(version) && !(
            #[trigger] b[q]).satisfies(version),
    decreases i, j,
{
    if j > 0 {
        lemma_left_before_sound(a, b, i, j - 1, version);
        lemma_difference_exact(a[i], b[j - 1], version);
        let pieces = left_pieces(a[i], b[j - 1]);
        lemma_any_satisfies_joined(left_before(a, b, i, j - 1), pieces, version);
        if any_satisfies(pieces, version) {
            assert(a[i].satisfies(version) && !b[j - 1].satisfies(version));
        }
    } else if i > 0 {
        lemma_left_before_sound(a, b, i - 1, b.len() as int, version);
    }
}

/// A version that lies in `a[p]` and outside `b[q]` lies in a left piece
/// as soon as the pair `(p, q)` has been passed.
pub proof fn lemma_left_before_complete(
    a: Seq<ComparatorSetView>,
    b: Seq<ComparatorSetView>,
    i: int,
    j: int,
    p: int,
    q: int,
    version: VersionView,
)
    requires
        all_well_formed(a),
        all_well_formed(b),
        cut_at(a, b, i, j),
        0 <= p < a.len(),
        0 <= q < b.len(),
        p < i || (p == i && q < j),
        a[p].satisfies(version),
        !b[q].satisfies(version),
    ensures
        any_satisfies(left_before(a, b, i, j), version),
    decreases i, j,
{
    if j > 0 {
        let pieces = left_pieces(a[i], b[j - 1]);
        lemma_any_satisfies_joined(left_before(a, b, i, j - 1), pieces, version);
        if p == i && q == j - 1 {
            lemma_difference_exact(a[i], b[j - 1], version);
        } else {
            lemma_left_before_complete(a, b, i, j - 1, p, q, version);
        }
    } else {
        lemma_left_before_complete(a, b, i - 1, b.len() as int, p, q, version);
    }
}

/// The intersection of two ranges holds exactly the versions that lie in
/// both; where there is none, no version lies in both.
pub proof fn lemma_range_intersect_exact(a: RangeView, b: RangeView, version: VersionView)
    requires
        a.well_formed(),
        b.well_formed(),
    ensures
        match a.intersect(b) {
            Some(both) => both.well_formed() && (both.satisfies(version) <==> a.satisfies(version)
                && b.satisfies(version)),
            None => !(a.satisfies(version) && b.satisfies(version)),
        },
{
    let n = a.comparators.len() as int;
    lemma_shared_before_sound(a.comparators, b.comparators, n, 0, version);
    if a.satisfies(version) && b.satisfies(version) {
        let p = choose|p: int|
            0 <= p < a.comparators.len() && (#[trigger] a.comparators[p]).satisfies(version);
        let q = choose|q: int|
            0 <= q < b.comparators.len() && (#[trigger] b.comparators[q]).satisfies(version);
        lemma_shared_before_complete(a.comparators, b.comparators, n, 0, p, q, version);
    }
}

/// Intersecting two ranges in either order gives the same versions, and
/// gives nothing in one order exactly when it gives nothing in the other.
pub proof fn lemma_range_intersect_commutes(a: RangeView, b: RangeView, version: VersionView)
    requires
        a.well_formed(),
        b.well_formed(),
    ensures
        a.intersect(b) is None <==> b.intersect(a) is None,
        a.intersect(b) is Some ==> (a.intersect(b).unwrap().satisfies(version) <==> b.intersect(
            a,
        ).unwrap().satisfies(version)),
{
    lemma_range_intersect_exact(a, b, version);
    lemma_range_intersect_exact(b, a, version);
    lemma_shared_nonempty(a, b);
    lemma_shared_nonempty(b, a);
    if exists|p: int, q: int|
        0 <= p < a.comparators.len() && 0 <= q < b.comparators.len() && (
        #[trigger] a.comparators[p]).intersect(#[trigger] b.comparators[q]) is Some {
        let (p, q) = choose|p: int, q: int|
            0 <= p < a.comparators.len() && 0 <= q < b.comparators.len() && (
            #[trigger] a.comparators[p]).intersect(#[trigger] b.comparators[q]) is Some;
        lemma_intersect_commutes(a.comparators[p], b.comparators[q]);
        assert(b.comparators[q].intersect(a.comparators[p]) is Some);
    }
    if exists|q: int, p: int|
        0 <= q < b.comparators.len() && 0 <= p < a.comparators.len() && (
        #[trigger] b.comparators[q]).intersect(#[trigger] a.comparators[p]) is Some {
        let (q, p) = choose|q: int, p: int|
            0 <= q < b.comparators.len() && 0 <= p < a.comparators.len() && (
            #[trigger] b.comparators[q]).intersect(#[trigger] a.comparators[p]) is Some;
        lemma_intersect_commutes(b.comparators[q], a.comparators[p]);
        assert(a.comparators[p].intersect(b.comparators[q]) is Some);
    }
}

/// Two ranges share a piece exactly when two of their intervals do.
pub proof fn lemma_shared_nonempty(a: RangeView, b: RangeView)
    requires
        a.well_formed(),
        b.well_formed(),
    ensures
        a.intersect(b) is Some <==> exists|p: int, q: int|
            0 <= p < a.comparators.len() && 0 <= q < b.comparators.len() && (
            #[trigger] a.comparators[p]).intersect(#[trigger] b.comparators[q]) is Some,
{
    lemma_shared_before_nonempty(
        a.comparators,
        b.comparators,
        a.comparators.len() as int,
        0,
    );
}

/// There is a shared piece before a pair exactly when two intervals
/// before that pair share one.
pub proof fn lemma_shared_before_nonempty(
    a: Seq<ComparatorSetView>,
    b: Seq<ComparatorSetView>,
    i: int,
    j: int,
)
    requires
        cut_at(a, b, i, j),
    ensures
        shared_before(a, b, i, j).len() > 0 <==> exists|p: int, q: int|
            0 <= p < a.len() && 0 <= q < b.len() && (p < i || (p == i && q < j)) && (
            #[trigger] a[p]).intersect(#[trigger] b[q]) is Some,
    decreases i, j,
{
    if j > 0 {
        lemma_shared_before_nonempty(a, b, i, j - 1);
        if a[i].intersect(b[j - 1]) is Some {
            assert(0 <= i < a.len() && 0 <= j - 1 < b.len() && a[i].intersect(b[j - 1]) is Some);
        }
    } else if i > 0 {
        lemma_shared_before_nonempty(a, b, i - 1, b.len() as int);
    }
}

/// What is left of `a` once `b` is taken out holds exactly the versions
/// that lie in an interval of `a` and outside an interval of `b`. Where
/// `b` is one interval, these are the versions that lie in `a` and not in
/// `b`.
pub proof fn lemma_range_difference_exact(a: RangeView, b: RangeView, version: VersionView)
    requires
        a.well_formed(),
        b.well_formed(),
    ensures
        ({
            let stays = exists|p: int, q: int|
                0 <= p < a.comparators.len() && 0 <= q < b.comparators.len() && (
                #[trigger] a.comparators[p]).satisfies(version) && !(
                #[trigger] b.comparators[q]).satisfies(version);
            match a.difference(b) {
                Some(rest) => rest.well_formed() && (rest.satisfies(version) <==> stays),
                None => !stays,
            }
        }),
        b.comparators.len() == 1 ==> match a.difference(b) {
            Some(rest) => rest.satisfies(version) <==> a.satisfies(version) && !b.satisfies(
                version,
            ),
            None => !(a.satisfies(version) && !b.satisfies(version)),
        },
{
    let n = a.comparators.len() as int;
    lemma_left_before_sound(a.comparators, b.comparators, n, 0, version);
    let stays = exists|p: int, q: int|
        0 <= p < a.comparators.len() && 0 <= q < b.comparators.len() && (
        #[trigger] a.comparators[p]).satisfies(version) && !(
        #[trigger] b.comparators[q]).satisfies(version);
    if stays {
        let (p, q) = choose|p: int, q: int|
            0 <= p < a.comparators.len() && 0 <= q < b.comparators.len() && (
            #[trigger] a.comparators[p]).satisfies(version) && !(
            #[trigger] b.comparators[q]).satisfies(version);
        lemma_left_before_complete(a.comparators, b.comparators, n, 0, p, q, version);
    }
    if b.comparators.len() == 1 {
        if a.satisfies(version) && !b.satisfies(version) {
            let p = choose|p: int|
                0 <= p < a.comparators.len() && (#[trigger] a.comparators[p]).satisfies(version);
            assert(!b.comparators[0].satisfies(version));
        }
        if stays {
            let (p, q) = choose|p: int, q: int|
                0 <= p < a.comparators.len() && 0 <= q < b.comparators.len() && (
                #[trigger] a.comparators[p]).satisfies(version) && !(
                #[trigger] b.comparators[q]).satisfies(version);
            assert(q == 0);
            if b.satisfies(version) {
                let k = choose|k: int|
                    0 <= k < b.comparators.len() && (#[trigger] b.comparators[k]).satisfies(
                        version,
                    );
                assert(k == 0);
            }
        }
    }
}

/// A version lies in a range exactly when it lies in what is left of the
/// range once `b` is taken out, or in what the range shares with `b`.
pub proof fn lemma_range_difference_partitions(a: RangeView, b: RangeView, version: VersionView)
    requires
        a.well_formed(),
        b.well_formed(),
    ensures
        a.satisfies(version) <==> (match a.difference(b) {
            Some(rest) => rest.satisfies(version),
            None => false,
        }) || (match a.intersect(b) {
            Some(both) => both.satisfies(version),
            None => false,
        }),
{
    lemma_range_intersect_exact(a, b, version);
    lemma_range_difference_exact(a, b, version);
    if a.satisfies(version) {
        let p = choose|p: int|
            0 <= p < a.comparators.len() && (#[trigger] a.comparators[p]).satisfies(version);
        if !b.comparators[0].satisfies(version) {
            assert(a.comparators[p].satisfies(version) && !b.comparators[0].satisfies(version));
        } else {
            assert(b.satisfies(version));
        }
    }
}

/// Nothing is left of `a` once `b` is taken out exactly when every
/// interval of `a` lies within every interval of `b`.
pub proof fn lemma_range_difference_empty(a: RangeView, b: RangeView)
    requires
        a.well_formed(),
        b.well_formed(),
    ensures
        a.difference(b) is None <==> forall|p: int, q: int|
            0 <= p < a.comparators.len() && 0 <= q < b.comparators.len() ==> (
            #[trigger] b.comparators[q]).allows_all(#[trigger] a.comparators[p]),
{
    lemma_left_before_empty(a.comparators, b.comparators, a.comparators.len() as int, 0);
}

/// There is no left piece before a pair exactly when, of the pairs
/// before it, each first interval lies within the second.
pub proof fn lemma_left_before_empty(
    a: Seq<ComparatorSetView>,
    b: Seq<ComparatorSetView>,
    i: int,
    j: int,
)
    requires
        all_well_formed(a),
        all_well_formed(b),
        cut_at(a, b, i, j),
    ensures
        left_before(a, b, i, j).len() == 0 <==> forall|p: int, q: int|
            0 <= p < a.len() && 0 <= q < b.len() && (p < i || (p == i && q < j)) ==> (
            #[trigger] b[q]).allows_all(#[trigger] a[p]),
    decreases i, j,
{
    if j > 0 {
        lemma_left_before_empty(a, b, i, j - 1);
        lemma_difference_none(a[i], b[j - 1]);
        if left_before(a, b, i, j).len() == 0 {
            assert forall|p: int, q: int|
                0 <= p < a.len() && 0 <= q < b.len() && (p < i || (p == i && q < j)) implies (
            #[trigger] b[q]).allows_all(#[trigger] a[p]) by {
                if p == i && q == j - 1 {
                } else {
                    assert(p < i || (p == i && q < j - 1));
                }
            }
        }
    } else if i > 0 {
        lemma_left_before_empty(a, b, i - 1, b.len() as int);
    }
}

/// Nothing is left of an interval once `y` is taken out exactly when the
/// interval lies within `y`.
pub proof fn lemma_difference_none(x: ComparatorSetView, y: ComparatorSetView)
    requires
        x.well_formed(),
        y.well_formed(),
    ensures
        x.difference(y) is None <==> y.allows_all(x),
        x.difference(y) is Some ==> x.difference(y).unwrap().len() > 0,
{
    lemma_position_order_mirror(x.lower.position(), y.lower.position());
    lemma_position_order_mirror(x.upper.position(), y.upper.position());
    lemma_position_order_mirror(x.lower.position(), x.upper.position());
    if y.allows_all(x) {
        lemma_position_order_transitive(x.lower.position(), x.upper.position(), y.upper.position());
        lemma_position_order_transitive(y.lower.position(), x.lower.position(), x.upper.position());
        crate::bound::lemma_position_order_reflexive(x.lower.position());
        crate::bound::lemma_position_order_reflexive(x.upper.position());
    }
    match x.intersect(y) {
        Some(overlap) => {
            lemma_position_order_mirror(x.lower.position(), overlap.lower.position());
            lemma_position_order_mirror(overlap.upper.position(), x.upper.position());
        },
        None => {},
    }
}

/// Taking a range out of itself leaves nothing, provided each of its
/// intervals lies within each of the others: for one, a range of a single
/// interval.
pub proof fn lemma_range_difference_of_self(a: RangeView)
    requires
        a.well_formed(),
        forall|p: int, q: int|
            0 <= p < a.comparators.len() && 0 <= q < a.comparators.len() ==> (
            #[trigger] a.comparators[q]).allows_all(#[trigger] a.comparators[p]),
    ensures
        a.difference(a) is None,
{
    lemma_range_difference_empty(a, a);
}

impl Range {
    #[verifier::type_invariant]
    closed spec fn valid(self) -> bool {
        self@.well_formed()
    }

    /// The range of the given intervals, where there is at least one.
    pub(crate) fn from_comparators(comparators: Vec<ComparatorSet>) -> (range: Option<Range>)
        requires
            all_well_formed(comparators_view(comparators@)),
        ensures
            range.is_some() == (comparators@.len() > 0),
            range.is_some() ==> range.unwrap()@.comparators == comparators_view(comparators@)
                && range.unwrap()@.well_formed(),
    {
        if comparators.len() == 0 {
            None
        } else {
            Some(Range { comparators })
        }
    }

    /// The range that every version satisfies.
    pub fn any() -> (range: Range)
        ensures
            range@.well_formed(),
            range@.comparators.len() == 1,
            !range@.is_floating(),
            !range@.has_pre_release(),
            forall|version: VersionView| range@.satisfies(version),
    {
        let mut comparators: Vec<ComparatorSet> = Vec::new();
        comparators.push(ComparatorSet::everything(false));
        let range = Range { comparators };
        assert forall|version: VersionView| range@.satisfies(version) by {
            assert(range@.comparators[0].satisfies(version));
        }
        range
    }

    /// The floating range that every version satisfies.
    pub fn any_floating() -> (range: Range)
        ensures
            range@.well_formed(),
            range@.comparators.len() == 1,
            range@.is_floating(),
            !range@.has_pre_release(),
            forall|version: VersionView| range@.satisfies(version),
    {
        let mut comparators: Vec<ComparatorSet> = Vec::new();
        comparators.push(ComparatorSet::everything(true));
        let range = Range { comparators };
        assert(range@.comparators[0].floating);
        assert forall|version: VersionView| range@.satisfies(version) by {
            assert(range@.comparators[0].satisfies(version));
        }
        range
    }

    /// The intervals of the range, in order.
    pub fn comparators(&self) -> (comparators: &Vec<ComparatorSet>)
        ensures
            comparators_view(comparators@) == self@.comparators,
    {
        &self.comparators
    }

    /// Whether some interval of the range is floating.
    pub fn is_floating(&self) -> (yes: bool)
        ensures
            yes == self@.is_floating(),
    {
        let mut i: usize = 0;
        while i < self.comparators.len()
            invariant
                i <= self.comparators.len(),
                forall|k: int| 0 <= k < i ==> !(#[trigger] self@.comparators[k]).floating,
            decreases self.comparators.len() - i,
        {
            if self.comparators[i].is_floating() {
                assert(self@.comparators[i as int].floating);
                return true;
            }
            i = i + 1;
        }
        false
    }

    /// Whether some interval of the range names a pre-release.
    pub fn has_pre_release(&self) -> (yes: bool)
        ensures
            yes == self@.has_pre_release(),
    {
        let mut i: usize = 0;
        while i < self.comparators.len()
            invariant
                i <= self.comparators.len(),
                forall|k: int| 0 <= k < i ==> !(#[trigger] self@.comparators[k]).has_pre_release(),
            decreases self.comparators.len() - i,
        {
            if self.comparators[i].has_pre() {
                assert(self@.comparators[i as int].has_pre_release());
                return true;
            }
            i = i + 1;
        }
        false
    }

    /// Whether `version` lies in the range.
    pub fn satisfies(&self, version: &Version) -> (yes: bool)
        ensures
            yes == self@.satisfies(version@),
    {
        let mut i: usize = 0;
        while i < self.comparators.len()
            invariant
                i <= self.comparators.len(),
                forall|k: int| 0 <= k < i ==> !(#[trigger] self@.comparators[k]).satisfies(version@),
            decreases self.comparators.len() - i,
        {
            if self.comparators[i].satisfies(version) {
                assert(self@.comparators[i as int].satisfies(version@));
                return true;
            }
            i = i + 1;
        }
        false
    }

    /// Whether some interval of this range holds some interval of `other`
    /// whole.
    pub fn allows_all(&self, other: &Range) -> (yes: bool)
        ensures
            yes == self@.allows_all(other@),
    {
        let mut i: usize = 0;
        while i < self.comparators.len()
            invariant
                i <= self.comparators.len(),
                forall|p: int, q: int|
                    0 <= p < i && 0 <= q < other@.comparators.len() ==> !(
                    #[trigger] self@.comparators[p]).allows_all(#[trigger] other@.comparators[q]),
            decreases self.comparators.len() - i,
        {
            let mut j: usize = 0;
            while j < other.comparators.len()
                invariant
                    i < self.comparators.len(),
                    j <= other.comparators.len(),
                    forall|p: int, q: int|
                        0 <= p < i && 0 <= q < other@.comparators.len() ==> !(
                        #[trigger] self@.comparators[p]).allows_all(
                            #[trigger] other@.comparators[q],
                        ),
                    forall|q: int|
                        0 <= q < j ==> !self@.comparators[i as int].allows_all(
                            #[trigger] other@.comparators[q],
                        ),
                decreases other.comparators.len() - j,
            {
                if self.comparators[i].allows_all(&other.comparators[j]) {
                    assert(self@.comparators[i as int].allows_all(other@.comparators[j as int]));
                    return true;
                }
                j = j + 1;
            }
            i = i + 1;
        }
        false
    }

    /// Whether some interval of this range overlaps some interval of
    /// `other`.
    pub fn allows_any(&self, other: &Range) -> (yes: bool)
        ensures
            yes == self@.allows_any(other@),
    {
        let mut i: usize = 0;
        while i < self.comparators.len()
            invariant
                i <= self.comparators.len(),
                forall|p: int, q: int|
                    0 <= p < i && 0 <= q < other@.comparators.len() ==> !(
                    #[trigger] self@.comparators[p]).allows_any(#[trigger] other@.comparators[q]),
            decreases self.comparators.len() - i,
        {
            let mut j: usize = 0;
            while j < other.comparators.len()
                invariant
                    i < self.comparators.len(),
                    j <= other.comparators.len(),
                    forall|p: int, q: int|
                        0 <= p < i && 0 <= q < other@.comparators.len() ==> !(
                        #[trigger] self@.comparators[p]).allows_any(
                            #[trigger] other@.comparators[q],
                        ),
                    forall|q: int|
                        0 <= q < j ==> !self@.comparators[i as int].allows_any(
                            #[trigger] other@.comparators[q],
                        ),
                decreases other.comparators.len() - j,
            {
                if self.comparators[i].allows_any(&other.comparators[j]) {
                    assert(self@.comparators[i as int].allows_any(other@.comparators[j as int]));
                    return true;
                }
                j = j + 1;
            }
            i = i + 1;
        }
        false
    }

    /// What this range shares with `other`: the shared piece of each pair
    /// of intervals, or nothing where no pair shares one.
    pub fn intersect(&self, other: &Range) -> (both: Option<Range>)
        ensures
            both.is_some() == self@.intersect(other@).is_some(),
            both.is_some() ==> both.unwrap()@ == self@.intersect(other@).unwrap()
                && both.unwrap()@.well_formed(),
    {
        proof {
            use_type_invariant(self);
            use_type_invariant(other);
        }
        let ghost a = self@.comparators;
        let ghost b = other@.comparators;
        let mut pieces: Vec<ComparatorSet> = Vec::new();
        let mut i: usize = 0;
        assert(comparators_view(pieces@) =~= shared_before(a, b, 0, 0));
        while i < self.comparators.len()
            invariant
                i <= self.comparators.len(),
                a == self@.comparators,
                b == other@.comparators,
                all_well_formed(a),
                all_well_formed(b),
                comparators_view(pieces@) == shared_before(a, b, i as int, 0),
                all_well_formed(comparators_view(pieces@)),
            decreases self.comparators.len() - i,
        {
            let mut j: usize = 0;
            while j < other.comparators.len()
                invariant
                    i < self.comparators.len(),
                    j <= other.comparators.len(),
                    a == self@.comparators,
                    b == other@.comparators,
                    all_well_formed(a),
                    all_well_formed(b),
                    comparators_view(pieces@) == shared_before(a, b, i as int, j as int),
                    all_well_formed(comparators_view(pieces@)),
                decreases other.comparators.len() - j,
            {
                let ghost before = comparators_view(pieces@);
                assert(a[i as int].well_formed() && b[j as int].well_formed());
                match self.comparators[i].intersect(&other.comparators[j]) {
                    Some(piece) => {
                        pieces.push(piece);
                    },
                    None => {},
                }
                assert(comparators_view(pieces@) =~= before + shared_piece(
                    a[i as int],
                    b[j as int],
                ));
                j = j + 1;
            }
            i = i + 1;
        }
        if pieces.len() == 0 {
            None
        } else {
            Some(Range { comparators: pieces })
        }
    }

    /// What is left of this range once `other` is taken out: the left
    /// pieces of each pair of intervals, or nothing where no pair leaves
    /// one.
    pub fn difference(&self, other: &Range) -> (rest: Option<Range>)
        ensures
            rest.is_some() == self@.difference(other@).is_some(),
            rest.is_some() ==> rest.unwrap()@ == self@.difference(other@).unwrap()
                && rest.unwrap()@.well_formed(),
    {
        proof {
            use_type_invariant(self);
            use_type_invariant(other);
        }
        let ghost a = self@.comparators;
        let ghost b = other@.comparators;
        let mut pieces: Vec<ComparatorSet> = Vec::new();
        let mut i: usize = 0;
        assert(comparators_view(pieces@) =~= left_before(a, b, 0, 0));
        while i < self.comparators.len()
            invariant
                i <= self.comparators.len(),
                a == self@.comparators,
                b == other@.comparators,
                all_well_formed(a),
                all_well_formed(b),
                comparators_view(pieces@) == left_before(a, b, i as int, 0),
                all_well_formed(comparators_view(pieces@)),
            decreases self.comparators.len() - i,
        {
            let mut j: usize = 0;
            while j < other.comparators.len()
                invariant
                    i < self.comparators.len(),
                    j <= other.comparators.len(),
                    a == self@.comparators,
                    b == other@.comparators,
                    all_well_formed(a),
                    all_well_formed(b),
                    comparators_view(pieces@) == left_before(a, b, i as int, j as int),
                    all_well_formed(comparators_view(pieces@)),
                decreases other.comparators.len() - j,
            {
                let ghost before = comparators_view(pieces@);
                assert(a[i as int].well_formed() && b[j as int].well_formed());
                match self.comparators[i].difference(&other.comparators[j]) {
                    Some(mut left) => {
                        let ghost added = comparators_view(left@);
                        pieces.append(&mut left);
                        assert(comparators_view(pieces@) =~= before + added);
                    },
                    None => {},
                }
                assert(comparators_view(pieces@) =~= before + left_pieces(
                    a[i as int],
                    b[j as int],
                ));
                j = j + 1;
            }
            i = i + 1;
        }
        if pieces.len() == 0 {
            None
        } else {
            Some(Range { comparators: pieces })
        }
    }
}

impl Clone for Range {
    fn clone(&self) -> (copy: Self)
        ensures
            copy@ == self@,
    {
        proof {
            use_type_invariant(self);
        }
        let mut comparators: Vec<ComparatorSet> = Vec::new();
        let mut i: usize = 0;
        while i < self.comparators.len()
            invariant
                i <= self.comparators.len(),
                comparators.len() == i,
                forall|k: int| 0 <= k < i ==> comparators@[k]@ == self.comparators@[k]@,
            decreases self.comparators.len() - i,
        {
            comparators.push(self.comparators[i].clone());
            i = i + 1;
        }
        assert(comparators_view(comparators@) =~= comparators_view(self.comparators@));
        Range { comparators }
    }
}

impl RangeView {
    /// Both ranges have the same intervals in the same order.
    pub open spec fn same(self, other: RangeView) -> bool {
        &&& self.comparators.len() == other.comparators.len()
        &&& forall|i: int|
            0 <= i < self.comparators.len() ==> (#[trigger] self.comparators[i]).same(
                other.comparators[i],
            )
    }
}

impl PartialEq for Range {
    fn eq(&self, other: &Self) -> (equal: bool) {
        if self.comparators.len() != other.comparators.len() {
            return false;
        }
        let mut i: usize = 0;
        while i < self.comparators.len()
            invariant
                i <= self.comparators.len(),
                self.comparators.len() == other.comparators.len(),
                forall|k: int|
                    0 <= k < i ==> (#[trigger] self@.comparators[k]).same(other@.comparators[k]),
            decreases self.comparators.len() - i,
        {
            if !(self.comparators[i] == other.comparators[i]) {
                assert(!self@.comparators[i as int].same(other@.comparators[i as int]));
                return false;
            }
            i = i + 1;
        }
        true
    }
}

impl vstd::std_specs::cmp::PartialEqSpecImpl for Range {
    open spec fn obeys_eq_spec() -> bool {
        true
    }

    open spec fn eq_spec(&self, other: &Self) -> bool {
        self@.same(other@)
    }
}

impl Eq for Range {

}

} // verus!
