//! Events: kinds of occurrences recorded during tracing, each with its
//! occurrences in timestamp order.
use vstd::prelude::*;

use crate::trace::metrics::Metrics;
use crate::trace::Error;

verus! {

/// Occurrences are in nondecreasing timestamp order.
pub open spec fn sorted_by_ts(s: Seq<Metrics>) -> bool {
    forall|i: int, j: int| 0 <= i <= j < s.len() ==> s[i].ts <= s[j].ts
}

/// `k` is the point at which `occ` goes into `s`: after every occurrence whose
/// timestamp is at most `occ`'s, before every later one.
pub open spec fn is_insertion_point(s: Seq<Metrics>, occ: Metrics, k: int) -> bool {
    &&& 0 <= k <= s.len()
    &&& forall|j: int| 0 <= j < k ==> (#[trigger] s[j]).ts <= occ.ts
    &&& forall|j: int| k <= j < s.len() ==> (#[trigger] s[j]).ts > occ.ts
}

/// A named kind of event and the points at which it occurred, ordered by timestamp.
#[derive(Debug, PartialEq, Eq, Hash)]
pub struct Event {
    pub id: u32,
    // INVARIANT: occurences must be sorted by timestamp
    occurences: Vec<Metrics>,
    pub name: String,
    pub description: String,
}

impl Event {
    pub closed spec fn spec_id(&self) -> u32 {
        self.id
    }

    pub closed spec fn spec_name(&self) -> Seq<char> {
        self.name@
    }

    pub closed spec fn spec_description(&self) -> Seq<char> {
        self.description@
    }

    pub closed spec fn spec_occurences(&self) -> Seq<Metrics> {
        self.occurences@
    }

    pub open spec fn wf(&self) -> bool {
        sorted_by_ts(self.spec_occurences())
    }

    pub fn new(id: u32, name: String, description: String) -> (r: Self)
        ensures
            r.spec_id() == id,
            r.spec_name() == name@,
            r.spec_description() == description@,
            r.spec_occurences() == Seq::<Metrics>::empty(),
            r.wf(),
    {
        Self { id, occurences: Vec::new(), name, description }
    }

    /// Builds an event from occurrences that are already ordered by timestamp;
    /// fails with `NotSorted` otherwise.
    pub fn from_occurences(id: u32, name: String, description: String, occurences: Vec<Metrics>) -> (r:
        Result<Self, Error>)
        ensures
            r is Ok <==> sorted_by_ts(occurences@),
            r is Err ==> r == Err::<Self, Error>(Error::NotSorted),
            r matches Ok(e) ==> {
                &&& e.spec_id() == id
                &&& e.spec_name() == name@
                &&& e.spec_description() == description@
                &&& e.spec_occurences() == occurences@
                &&& e.wf()
            },
    {
        let n = occurences.len();
        if n == 0 {
            return Ok(Self { id, occurences, name, description });
        }
        let mut i: usize = 1;
        while i < n
            invariant
                n == occurences@.len(),
                1 <= i <= n,
                sorted_by_ts(occurences@.subrange(0, i as int)),
            decreases n - i,
        {
            if !(occurences[i - 1] <= occurences[i]) {
                assert(!sorted_by_ts(occurences@)) by {
                    assert(occurences@[i - 1].ts > occurences@[i as int].ts);
                }
                return Err(Error::NotSorted);
            }
            proof {
                let p = occurences@.subrange(0, i + 1);
                assert forall|a: int, b: int| 0 <= a <= b < p.len() implies p[a].ts <= p[b].ts by {
                    let q = occurences@.subrange(0, i as int);
                    if b < i {
                        assert(p[a] == q[a] && p[b] == q[b]);
                    } else if a < i {
                        assert(p[a] == q[a] && q[i - 1] == p[i - 1]);
                    }
                }
            }
            i += 1;
        }
        assert(occurences@.subrange(0, n as int) =~= occurences@);
        Ok(Self { id, occurences, name, description })
    }

    /// Inserts an occurrence after every occurrence with an equal or earlier timestamp.
    pub fn add_occurence(&mut self, occurence: Metrics)
        requires
            old(self).wf(),
        ensures
            final(self).spec_id() == old(self).spec_id(),
            final(self).spec_name() == old(self).spec_name(),
            final(self).spec_description() == old(self).spec_description(),
            exists|k: int|
                is_insertion_point(old(self).spec_occurences(), occurence, k)
                    && final(self).spec_occurences() == old(self).spec_occurences().insert(k, occurence),
            final(self).wf(),
            final(self).spec_occurences().to_multiset() == old(self).spec_occurences().to_multiset().insert(
                occurence,
            ),
    {
        let idx = partition_point_le(&self.occurences, occurence);
        let ghost old_occ = self.occurences@;
        self.occurences.insert(idx, occurence);
        proof {
            vstd::seq_lib::to_multiset_insert(old_occ, idx as int, occurence);
        }
        assert(is_insertion_point(old_occ, occurence, idx as int));
        assert(sorted_by_ts(self.occurences@)) by {
            let s = self.occurences@;
            assert forall|a: int, b: int| 0 <= a <= b < s.len() implies s[a].ts <= s[b].ts by {
                let k = idx as int;
                if a < k && b < k {
                    assert(s[a] == old_occ[a] && s[b] == old_occ[b]);
                } else if a < k && b == k {
                    assert(s[a] == old_occ[a]);
                } else if a < k {
                    assert(s[a] == old_occ[a] && s[b] == old_occ[b - 1]);
                } else if a == k && b > k {
                    assert(s[b] == old_occ[b - 1]);
                } else if a > k {
                    assert(s[a] == old_occ[a - 1] && s[b] == old_occ[b - 1]);
                }
            }
        }
    }

    pub fn id(&self) -> (r: u32)
        ensures
            r == self.spec_id(),
    {
        self.id
    }

    pub fn occurences(&self) -> (r: &[Metrics])
        ensures
            r@ == self.spec_occurences(),
    {
        self.occurences.as_slice()
    }
}

/// Binary search for the first occurrence whose timestamp exceeds `occ`'s.
fn partition_point_le(s: &Vec<Metrics>, occ: Metrics) -> (r: usize)
    requires
        sorted_by_ts(s@),
    ensures
        is_insertion_point(s@, occ, r as int),
{
    let mut lo: usize = 0;
    let mut hi: usize = s.len();
    while lo < hi
        invariant
            0 <= lo <= hi <= s@.len(),
            sorted_by_ts(s@),
            forall|j: int| 0 <= j < lo ==> (#[trigger] s@[j]).ts <= occ.ts,
            forall|j: int| hi <= j < s@.len() ==> (#[trigger] s@[j]).ts > occ.ts,
        decreases hi - lo,
    {
        let mid = lo + (hi - lo) / 2;
        if s[mid] <= occ {
            assert forall|j: int| 0 <= j <= mid implies (#[trigger] s@[j]).ts <= occ.ts by {
                assert(s@[j].ts <= s@[mid as int].ts);
            }
            lo = mid + 1;
        } else {
            assert forall|j: int| mid <= j < s@.len() implies (#[trigger] s@[j]).ts > occ.ts by {
                assert(s@[mid as int].ts <= s@[j].ts);
            }
            hi = mid;
        }
    }
    lo
}

impl Clone for Event {
    fn clone(&self) -> (r: Self)
        ensures
            same_event(*self, r),
    {
        let occurences = self.occurences.clone();
        assert(occurences@ =~= self.occurences@);
        Event { id: self.id, occurences, name: self.name.clone(), description: self.description.clone() }
    }
}

/// `b` has the id, name, description and occurrences of `a`.
pub open spec fn same_event(a: Event, b: Event) -> bool {
    &&& b.spec_id() == a.spec_id()
    &&& b.spec_name() == a.spec_name()
    &&& b.spec_description() == a.spec_description()
    &&& b.spec_occurences() == a.spec_occurences()
}

} // verus!
