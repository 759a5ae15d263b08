//! The order of versions: by major number, then by minor number.
use core::cmp::Ordering;
use vstd::prelude::*;
use vstd::std_specs::cmp::PartialOrdSpec;

use crate::version::ExactVersion;

verus! {

impl PartialOrd for ExactVersion {
    /// Compares the major numbers, and the minor numbers where those are
    /// equal.
    fn partial_cmp(&self, other: &ExactVersion) -> (order: Option<Ordering>) {
        if self.major < other.major {
            Some(Ordering::Less)
        } else if self.major > other.major {
            Some(Ordering::Greater)
        } else if self.minor < other.minor {
            Some(Ordering::Less)
        } else if self.minor > other.minor {
            Some(Ordering::Greater)
        } else {
            Some(Ordering::Equal)
        }
    }
}

impl vstd::std_specs::cmp::PartialOrdSpecImpl for ExactVersion {
    open spec fn obeys_partial_cmp_spec() -> bool {
        true
    }

    open spec fn partial_cmp_spec(&self, other: &ExactVersion) -> Option<Ordering> {
        if self.major < other.major {
            Some(Ordering::Less)
        } else if self.major > other.major {
            Some(Ordering::Greater)
        } else if self.minor < other.minor {
            Some(Ordering::Less)
        } else if self.minor > other.minor {
            Some(Ordering::Greater)
        } else {
            Some(Ordering::Equal)
        }
    }
}

/// The order of versions is total, and `<` is its strict part: every
/// version is at most itself, of two versions one is at most the other, two
/// versions that are each at most the other are the same, and what is at
/// most a version is at most every version above that one.
pub proof fn version_order_is_total(a: ExactVersion, b: ExactVersion, c: ExactVersion)
    ensures
        a.is_at_most(a),
        a.is_at_most(b) || b.is_at_most(a),
        a.is_at_most(b) && b.is_at_most(a) ==> a == b,
        a.is_at_most(b) && b.is_at_most(c) ==> a.is_at_most(c),
        a.partial_cmp_spec(&b) == Some(Ordering::Less) <==> a.is_at_most(b) && a != b,
        a.partial_cmp_spec(&b) == Some(Ordering::Equal) <==> a == b,
{
}

} // verus!
