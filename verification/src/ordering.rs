//! Comparison of versions and identifiers in the form that `std` uses.

use std::cmp::Ordering;
use vstd::prelude::*;
use vstd::std_specs::cmp::PartialOrdSpecImpl;
use crate::identifier::{identifier_order, Identifier};
use crate::version::{version_order, Version};

verus! {

/// The ordering that a three-way comparison of -1, 0 or 1 stands for.
pub open spec fn ordering_of(sign: int) -> Ordering {
    if sign < 0 {
        Ordering::Less
    } else if sign == 0 {
        Ordering::Equal
    } else {
        Ordering::Greater
    }
}

fn ordering_from(sign: i8) -> (ordering: Ordering)
    ensures
        ordering == ordering_of(sign + 0),
{
    if sign < 0 {
        Ordering::Less
    } else if sign == 0 {
        Ordering::Equal
    } else {
        Ordering::Greater
    }
}

impl Identifier {
    /// Compares two identifiers: numbers by value, texts without regard
    /// to case, and every number before every text.
    pub fn cmp(&self, other: &Identifier) -> (ordering: Ordering)
        ensures
            ordering == ordering_of(identifier_order(self@, other@)),
    {
        ordering_from(self.sign(other))
    }
}

impl PartialOrd for Identifier {
    fn partial_cmp(&self, other: &Self) -> (ordering: Option<Ordering>) {
        Some(ordering_from(self.sign(other)))
    }
}

impl PartialOrdSpecImpl for Identifier {
    open spec fn obeys_partial_cmp_spec() -> bool {
        true
    }

    open spec fn partial_cmp_spec(&self, other: &Self) -> Option<Ordering> {
        Some(ordering_of(identifier_order(self@, other@)))
    }
}

impl Version {
    /// Compares two versions by their components and pre-release lists.
    pub fn cmp(&self, other: &Version) -> (ordering: Ordering)
        ensures
            ordering == ordering_of(version_order(self@, other@)),
    {
        ordering_from(self.sign(other))
    }
}

impl PartialOrd for Version {
    fn partial_cmp(&self, other: &Self) -> (ordering: Option<Ordering>) {
        Some(ordering_from(self.sign(other)))
    }
}

impl PartialOrdSpecImpl for Version {
    open spec fn obeys_partial_cmp_spec() -> bool {
        true
    }

    open spec fn partial_cmp_spec(&self, other: &Self) -> Option<Ordering> {
        Some(ordering_of(version_order(self@, other@)))
    }
}

} // verus!
