use core::cmp::Ordering;
use vstd::prelude::*;

use crate::trace::metrics::Metrics;

verus! {

/// Metrics are ordered by their timestamp alone.
impl PartialOrd for Metrics {
    fn partial_cmp(&self, other: &Self) -> (r: Option<Ordering>) {
        if self.ts < other.ts {
            Some(Ordering::Less)
        } else if self.ts == other.ts {
            Some(Ordering::Equal)
        } else {
            Some(Ordering::Greater)
        }
    }
}

impl vstd::std_specs::cmp::PartialOrdSpecImpl for Metrics {
    open spec fn obeys_partial_cmp_spec() -> bool {
        true
    }

    open spec fn partial_cmp_spec(&self, other: &Metrics) -> Option<Ordering> {
        if self.ts < other.ts {
            Some(Ordering::Less)
        } else if self.ts == other.ts {
            Some(Ordering::Equal)
        } else {
            Some(Ordering::Greater)
        }
    }
}

} // verus!
