//! The integer side of the statistics recorded while merging traces.
use vstd::prelude::*;

use crate::trace::{Frame, Trace};

verus! {

pub const ANNOTATION_STATS_CATEGORY: &'static str = "Merging Stats";

pub const ANNOTATION_RAW_LATENCY_CATEGORY: &'static str = "Merging Raw Latencies";

pub const ANNOTATION_COUNT_NAME: &'static str = "Count";

pub const ANNOTATION_NOISE_CONTRIBUTION_NAME: &'static str = "Noise Contribution (NC)";

/// A frame's latency: the time its range covers.
pub open spec fn latency(f: Frame) -> int {
    f.spec_metrics().spec_total_time()
}

/// The latency reported for a frame is the time its range covers: its end
/// timestamp less its start timestamp, whatever its cycles and instructions.
pub proof fn lemma_latency_is_elapsed_time(f: Frame)
    ensures
        latency(f) == f.spec_metrics().spec_end().ts - f.spec_metrics().spec_start().ts,
{
}

/// Every indexed frame has a well-formed range.
pub open spec fn frames_wf(indexed_frames: Seq<(usize, &Frame)>) -> bool {
    forall|i: int| 0 <= i < indexed_frames.len() ==> (#[trigger] indexed_frames[i]).1.spec_metrics().wf()
}

/// Basic statistics (quartiles, mean, standard deviation and count) of the
/// latencies of merged frames.
pub struct BasicStats {}

impl BasicStats {
    pub fn prepare(_traces: &[(&str, &Trace)]) -> (r: Option<Self>)
        ensures
            r is Some,
    {
        Some(BasicStats {  })
    }

    pub fn category(&self) -> (r: Option<&'static str>)
        ensures
            r == Some(ANNOTATION_STATS_CATEGORY),
    {
        Some(ANNOTATION_STATS_CATEGORY)
    }

    /// The latencies the statistics are computed over, in order.
    pub fn latencies(&self, indexed_frames: &[(usize, &Frame)]) -> (r: Vec<u64>)
        requires
            frames_wf(indexed_frames@),
        ensures
            r@.len() == indexed_frames@.len(),
            forall|i: int| 0 <= i < r@.len() ==> r@[i] == latency(*(#[trigger] indexed_frames@[i]).1),
    {
        let mut r: Vec<u64> = Vec::new();
        let n = indexed_frames.len();
        let mut i: usize = 0;
        while i < n
            invariant
                n == indexed_frames@.len(),
                i <= n,
                frames_wf(indexed_frames@),
                r@.len() == i,
                forall|k: int| 0 <= k < i ==> r@[k] == latency(*(#[trigger] indexed_frames@[k]).1),
            decreases n - i,
        {
            let (_, frame) = indexed_frames[i];
            assert(frame.spec_metrics().wf());
            r.push(frame.metrics().total_time());
            i += 1;
        }
        r
    }
}

/// The latency of each merged frame, labelled with the name of its trace.
pub struct RawLatencies {
    trace_names: Vec<String>,
}

impl RawLatencies {
    pub closed spec fn spec_trace_names(&self) -> Seq<String> {
        self.trace_names@
    }

    pub fn prepare(named_traces: &[(&str, &Trace)]) -> (r: Option<Self>)
        ensures
            r matches Some(s) && s.spec_trace_names().len() == named_traces@.len() && forall|i: int|
                0 <= i < named_traces@.len() ==> (#[trigger] s.spec_trace_names()[i])@ == named_traces@[i].0@,
    {
        let mut trace_names: Vec<String> = Vec::new();
        let n = named_traces.len();
        let mut i: usize = 0;
        while i < n
            invariant
                n == named_traces@.len(),
                i <= n,
                trace_names@.len() == i,
                forall|k: int| 0 <= k < i ==> (#[trigger] trace_names@[k])@ == named_traces@[k].0@,
            decreases n - i,
        {
            let (name, _) = named_traces[i];
            trace_names.push(name.to_owned());
            i += 1;
        }
        Some(RawLatencies { trace_names })
    }

    pub fn trace_names(&self) -> (r: &[String])
        ensures
            r@ == self.spec_trace_names(),
    {
        self.trace_names.as_slice()
    }

    pub fn category(&self) -> (r: Option<&'static str>)
        ensures
            r == Some(ANNOTATION_RAW_LATENCY_CATEGORY),
    {
        Some(ANNOTATION_RAW_LATENCY_CATEGORY)
    }

    /// For each indexed frame, the name of its trace and its latency.
    pub fn compute(&self, indexed_frames: &[(usize, &Frame)]) -> (r: Vec<(String, u64)>)
        requires
            frames_wf(indexed_frames@),
            forall|i: int|
                0 <= i < indexed_frames@.len() ==> (#[trigger] indexed_frames@[i]).0 < self.spec_trace_names().len(),
        ensures
            r@.len() == indexed_frames@.len(),
            forall|i: int|
                0 <= i < r@.len() ==> {
                    &&& (#[trigger] r@[i]).0@ == self.spec_trace_names()[indexed_frames@[i].0 as int]@
                    &&& r@[i].1 == latency(*indexed_frames@[i].1)
                },
    {
        let mut r: Vec<(String, u64)> = Vec::new();
        let n = indexed_frames.len();
        let mut i: usize = 0;
        while i < n
            invariant
                n == indexed_frames@.len(),
                i <= n,
                frames_wf(indexed_frames@),
                forall|i: int|
                    0 <= i < indexed_frames@.len() ==> (#[trigger] indexed_frames@[i]).0 < self.spec_trace_names().len(),
                r@.len() == i,
                forall|k: int|
                    0 <= k < i ==> {
                        &&& (#[trigger] r@[k]).0@ == self.spec_trace_names()[indexed_frames@[k].0 as int]@
                        &&& r@[k].1 == latency(*indexed_frames@[k].1)
                    },
            decreases n - i,
        {
            let (idx, frame) = indexed_frames[i];
            assert(frame.spec_metrics().wf());
            let name = self.trace_names[idx].clone();
            r.push((name, frame.metrics().total_time()));
            i += 1;
        }
        r
    }
}

/// Noise contribution of a frame: how much of the spread of end-to-end
/// latencies its own latency explains.
pub struct NoiseContribution {
    e2e_latencies: Vec<u64>,
}

impl NoiseContribution {
    pub closed spec fn spec_e2e_latencies(&self) -> Seq<u64> {
        self.e2e_latencies@
    }

    /// Records the end-to-end latency (the root frame's latency) of each trace.
    pub fn prepare(named_traces: &[(&str, &Trace)]) -> (r: Option<Self>)
        requires
            forall|i: int|
                0 <= i < named_traces@.len() ==> (#[trigger] named_traces@[i]).1.spec_root().spec_metrics().wf(),
        ensures
            r matches Some(s) && s.spec_e2e_latencies().len() == named_traces@.len() && forall|i: int|
                0 <= i < named_traces@.len() ==> #[trigger] s.spec_e2e_latencies()[i] == latency(
                    named_traces@[i].1.spec_root(),
                ),
    {
        let mut latencies: Vec<u64> = Vec::new();
        let n = named_traces.len();
        let mut i: usize = 0;
        while i < n
            invariant
                n == named_traces@.len(),
                i <= n,
                forall|i: int|
                    0 <= i < named_traces@.len() ==> (#[trigger] named_traces@[i]).1.spec_root().spec_metrics().wf(),
                latencies@.len() == i,
                forall|k: int|
                    0 <= k < i ==> #[trigger] latencies@[k] == latency(named_traces@[k].1.spec_root()),
            decreases n - i,
        {
            let (_, trace) = named_traces[i];
            assert(trace.spec_root().spec_metrics().wf());
            latencies.push(trace.root_frame().metrics().total_time());
            i += 1;
        }
        Some(NoiseContribution { e2e_latencies: latencies })
    }

    pub fn category(&self) -> (r: Option<&'static str>)
        ensures
            r == Some(ANNOTATION_STATS_CATEGORY),
    {
        Some(ANNOTATION_STATS_CATEGORY)
    }

    pub fn e2e_latencies(&self) -> (r: &[u64])
        ensures
            r@ == self.spec_e2e_latencies(),
    {
        self.e2e_latencies.as_slice()
    }

    /// The end-to-end latency of the trace of each indexed frame.
    pub fn root_latencies(&self, indexed_frames: &[(usize, &Frame)]) -> (r: Vec<u64>)
        requires
            forall|i: int|
                0 <= i < indexed_frames@.len() ==> (#[trigger] indexed_frames@[i]).0 < self.spec_e2e_latencies().len(),
        ensures
            r@.len() == indexed_frames@.len(),
            forall|i: int|
                0 <= i < r@.len() ==> r@[i] == self.spec_e2e_latencies()[(#[trigger] indexed_frames@[i]).0 as int],
    {
        let mut r: Vec<u64> = Vec::with_capacity(indexed_frames.len());
        let n = indexed_frames.len();
        let mut i: usize = 0;
        while i < n
            invariant
                n == indexed_frames@.len(),
                i <= n,
                forall|i: int|
                    0 <= i < indexed_frames@.len() ==> (#[trigger] indexed_frames@[i]).0 < self.spec_e2e_latencies().len(),
                r@.len() == i,
                forall|k: int|
                    0 <= k < i ==> r@[k] == self.spec_e2e_latencies()[(#[trigger] indexed_frames@[k]).0 as int],
            decreases n - i,
        {
            let (idx, _) = indexed_frames[i];
            r.push(self.e2e_latencies[idx]);
            i += 1;
        }
        r
    }

    /// End-to-end latency minus the frame's own latency, for each indexed frame.
    pub fn residual_latencies(&self, indexed_frames: &[(usize, &Frame)]) -> (r: Vec<u64>)
        requires
            frames_wf(indexed_frames@),
            forall|i: int|
                0 <= i < indexed_frames@.len() ==> (#[trigger] indexed_frames@[i]).0 < self.spec_e2e_latencies().len(),
            forall|i: int|
                0 <= i < indexed_frames@.len() ==> latency(*(#[trigger] indexed_frames@[i]).1)
                    <= self.spec_e2e_latencies()[indexed_frames@[i].0 as int],
        ensures
            r@.len() == indexed_frames@.len(),
            forall|i: int|
                0 <= i < r@.len() ==> r@[i] == self.spec_e2e_latencies()[(#[trigger] indexed_frames@[i]).0 as int]
                    - latency(*indexed_frames@[i].1),
    {
        let mut root_latencies = self.root_latencies(indexed_frames);
        let n = root_latencies.len();
        let mut i: usize = 0;
        while i < n
            invariant
                n == indexed_frames@.len(),
                n == root_latencies@.len(),
                i <= n,
                frames_wf(indexed_frames@),
                forall|i: int|
                    0 <= i < indexed_frames@.len() ==> latency(*(#[trigger] indexed_frames@[i]).1)
                        <= self.spec_e2e_latencies()[indexed_frames@[i].0 as int],
                forall|k: int|
                    0 <= k < i ==> root_latencies@[k] == self.spec_e2e_latencies()[(
                    #[trigger] indexed_frames@[k]).0 as int] - latency(*indexed_frames@[k].1),
                forall|k: int|
                    i <= k < n ==> root_latencies@[k] == self.spec_e2e_latencies()[(
                    #[trigger] indexed_frames@[k]).0 as int],
            decreases n - i,
        {
            let (_, frame) = indexed_frames[i];
            assert(frame.spec_metrics().wf());
            let own = frame.metrics().total_time();
            let v = root_latencies[i] - own;
            root_latencies.set(i, v);
            i += 1;
        }
        root_latencies
    }
}

} // verus!
