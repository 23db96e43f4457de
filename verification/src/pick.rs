//! Picking the version that best matches a range.

use vstd::prelude::*;
use crate::range::{Range, RangeView};
use crate::version::{
    lemma_version_order_mirror, lemma_version_order_transitive, version_order, Version,
    VersionView,
};

verus! {

/// Picks versions for ranges. A picker may be told to always go for the
/// highest match.
#[derive(Debug)]
pub struct VersionPicker {
    force_floating: bool,
}

/// Whether `version` may be picked for `range`: it has to lie in the
/// range, and a pre-release is only picked where the range names a
/// pre-release itself.
pub open spec fn qualifies(range: RangeView, version: VersionView) -> bool {
    &&& range.has_pre_release() || version.pre_release.len() == 0
    &&& range.satisfies(version)
}

/// Whether `a` is a strictly better pick than `b`: higher where the
/// highest is looked for, lower where the lowest is.
pub open spec fn better(highest: bool, a: VersionView, b: VersionView) -> bool {
    if highest {
        version_order(a, b) > 0
    } else {
        version_order(a, b) < 0
    }
}

/// Whether `versions[i]` is the pick: it qualifies, no version that
/// qualifies is better, and none before it is as good.
pub open spec fn is_pick(range: RangeView, highest: bool, versions: Seq<Version>, i: int) -> bool {
    &&& 0 <= i < versions.len()
    &&& qualifies(range, versions[i]@)
    &&& forall|j: int|
        0 <= j < versions.len() && qualifies(range, (#[trigger] versions[j])@) ==> !better(
            highest,
            versions[j]@,
            versions[i]@,
        )
    &&& forall|j: int|
        0 <= j < i && qualifies(range, (#[trigger] versions[j])@) ==> better(
            highest,
            versions[i]@,
            versions[j]@,
        )
}

impl VersionPicker {
    /// A picker that goes for the highest match of a floating range and
    /// for the lowest match of any other.
    pub fn new() -> (picker: VersionPicker)
        ensures
            !picker.always_highest(),
    {
        VersionPicker { force_floating: false }
    }

    /// A picker that goes for the highest match of every range.
    pub fn new_floating_only() -> (picker: VersionPicker)
        ensures
            picker.always_highest(),
    {
        VersionPicker { force_floating: true }
    }

    /// Whether the picker goes for the highest match of every range.
    pub closed spec fn always_highest(&self) -> bool {
        self.force_floating
    }

    /// Whether the picker goes for the highest match of `range`.
    pub open spec fn highest_for(&self, range: RangeView) -> bool {
        range.is_floating() || self.always_highest()
    }

    /// Picks one of `versions` for `req`: among the versions that qualify,
    /// the highest where the range floats or the picker always goes for
    /// the highest, the lowest otherwise, and of equal ones the first.
    /// Nothing is picked where no version qualifies.
    pub fn pick_version(&self, req: &Range, versions: &[Version]) -> (picked: Option<Version>)
        ensures
            match picked {
                Some(v) => exists|i: int|
                    is_pick(req@, self.highest_for(req@), versions@, i) && v@
                        == (#[trigger] versions@[i])@,
                None => forall|i: int|
                    0 <= i < versions@.len() ==> !qualifies(req@, (#[trigger] versions@[i])@),
            },
    {
        let include_pre = req.has_pre_release();
        let highest = req.is_floating() || self.force_floating;
        let mut best: Option<usize> = None;
        let mut i: usize = 0;
        while i < versions.len()
            invariant
                i <= versions.len(),
                include_pre == req@.has_pre_release(),
                highest == self.highest_for(req@),
                match best {
                    Some(b) => b < i && is_pick(
                        req@,
                        highest,
                        versions@.subrange(0, i as int),
                        b as int,
                    ),
                    None => forall|j: int|
                        0 <= j < i ==> !qualifies(req@, (#[trigger] versions@[j])@),
                },
            decreases versions.len() - i,
        {
            let candidate = &versions[i];
            let ghost before = versions@.subrange(0, i as int);
            let ghost after = versions@.subrange(0, i + 1);
            assert(forall|j: int| 0 <= j < i ==> before[j] == after[j]);
            assert(after[i as int] == versions@[i as int]);
            if (include_pre || !candidate.is_pre_release()) && req.satisfies(candidate) {
                match best {
                    None => {
                        proof {
                            lemma_version_order_mirror(candidate@, candidate@);
                        }
                        assert(is_pick(req@, highest, after, i as int));
                        best = Some(i);
                    },
                    Some(b) => {
                        let sign = candidate.sign(&versions[b]);
                        let wins = if highest {
                            sign > 0
                        } else {
                            sign < 0
                        };
                        proof {
                            lemma_version_order_mirror(candidate@, versions@[b as int]@);
                            lemma_version_order_mirror(candidate@, candidate@);
                        }
                        if wins {
                            assert forall|j: int|
                                0 <= j < after.len() && qualifies(
                                    req@,
                                    (#[trigger] after[j])@,
                                ) implies !better(highest, after[j]@, after[i as int]@) by {
                                if j < i {
                                    assert(before[j] == after[j]);
                                    lemma_version_order_mirror(after[j]@, versions@[b as int]@);
                                    lemma_version_order_mirror(after[j]@, candidate@);
                                    if highest {
                                        lemma_version_order_transitive(
                                            after[j]@,
                                            versions@[b as int]@,
                                            candidate@,
                                        );
                                    } else {
                                        lemma_version_order_transitive(
                                            candidate@,
                                            versions@[b as int]@,
                                            after[j]@,
                                        );
                                    }
                                }
                            }
                            assert forall|j: int|
                                0 <= j < i && qualifies(req@, (#[trigger] after[j])@) implies better(
                                highest,
                                after[i as int]@,
                                after[j]@,
                            ) by {
                                assert(before[j] == after[j]);
                                lemma_version_order_mirror(after[j]@, versions@[b as int]@);
                                lemma_version_order_mirror(after[j]@, candidate@);
                                if highest {
                                    lemma_version_order_transitive(
                                        after[j]@,
                                        versions@[b as int]@,
                                        candidate@,
                                    );
                                } else {
                                    lemma_version_order_transitive(
                                        candidate@,
                                        versions@[b as int]@,
                                        after[j]@,
                                    );
                                }
                            }
                            assert(is_pick(req@, highest, after, i as int));
                            best = Some(i);
                        } else {
                            assert(before[b as int] == after[b as int]);
                            assert forall|j: int|
                                0 <= j < after.len() && qualifies(
                                    req@,
                                    (#[trigger] after[j])@,
                                ) implies !better(highest, after[j]@, after[b as int]@) by {
                                if j < i {
                                    assert(before[j] == after[j]);
                                }
                            }
                            assert forall|j: int|
                                0 <= j < b && qualifies(req@, (#[trigger] after[j])@) implies better(
                                highest,
                                after[b as int]@,
                                after[j]@,
                            ) by {
                                assert(before[j] == after[j]);
                            }
                            assert(is_pick(req@, highest, after, b as int));
                        }
                    },
                }
            } else {
                match best {
                    Some(b) => {
                        assert(before[b as int] == after[b as int]);
                        assert forall|j: int|
                            0 <= j < after.len() && qualifies(
                                req@,
                                (#[trigger] after[j])@,
                            ) implies !better(highest, after[j]@, after[b as int]@) by {
                            if j < i {
                                assert(before[j] == after[j]);
                            }
                        }
                        assert forall|j: int|
                            0 <= j < b && qualifies(req@, (#[trigger] after[j])@) implies better(
                            highest,
                            after[b as int]@,
                            after[j]@,
                        ) by {
                            assert(before[j] == after[j]);
                        }
                        assert(is_pick(req@, highest, after, b as int));
                    },
                    None => {},
                }
            }
            i = i + 1;
        }
        assert(versions@.subrange(0, i as int) =~= versions@);
        match best {
            Some(b) => Some(versions[b].clone()),
            None => None,
        }
    }
}

impl Default for VersionPicker {
    fn default() -> (picker: VersionPicker)
        ensures
            !picker.always_highest(),
    {
        VersionPicker::new()
    }
}

impl Clone for VersionPicker {
    fn clone(&self) -> (copy: VersionPicker)
        ensures
            copy.always_highest() == self.always_highest(),
    {
        VersionPicker { force_floating: self.force_floating }
    }
}

/// Picks one of `versions` for `req`: the highest that qualifies where the
/// range floats, the lowest that qualifies otherwise, and of equal ones
/// the first.
pub fn pick_version(req: &Range, versions: &[Version]) -> (picked: Option<Version>)
    ensures
        match picked {
            Some(v) => exists|i: int|
                is_pick(req@, req@.is_floating(), versions@, i) && v@ == (
                #[trigger] versions@[i])@,
            None => forall|i: int|
                0 <= i < versions@.len() ==> !qualifies(req@, (#[trigger] versions@[i])@),
        },
{
    VersionPicker::new().pick_version(req, versions)
}

} // verus!
