//! Call frames and the chunks they are made of.
use vstd::prelude::*;

use crate::trace::metrics::{spec_range, Metrics, MetricsRange};
use crate::trace::{Error, SymbolInfo};

verus! {

/// A stretch of execution inside a frame that is not covered by any callee.
#[derive(Debug, PartialEq, Eq, Hash)]
pub struct Straightline {
    pub metrics: MetricsRange,
}

/// A call frame: the range it covers, the symbol it executes, and its chunks
/// (straight-line stretches and callee frames) in execution order.
#[derive(Debug, PartialEq, Eq, Hash)]
pub struct Frame {
    pub metrics: MetricsRange,
    pub symbol: SymbolInfo,
    // INVARIANT: sum of time, cycles, and insn across all children must equal this frame's time, cycles, and insn
    chunks: Vec<Chunk>,
}

#[derive(Debug, PartialEq, Eq, Hash)]
pub enum Chunk {
    Frame(Frame),
    Straightline(Straightline),
}

/// Sum of the time, cycle and instruction totals of a sequence of chunks.
pub open spec fn chunk_sums(chunks: Seq<Chunk>) -> (int, int, int)
    decreases chunks.len(),
{
    if chunks.len() == 0 {
        (0, 0, 0)
    } else {
        let rest = chunk_sums(chunks.drop_last());
        let m = chunks.last().spec_metrics();
        (rest.0 + m.spec_total_time(), rest.1 + m.spec_total_cycles(), rest.2 + m.spec_total_insn())
    }
}

/// Chunk totals start at zero, and each chunk adds its span (end less start)
/// in each of the three counters.
pub proof fn lemma_chunk_sums_push(chunks: Seq<Chunk>, c: Chunk)
    ensures
        chunk_sums(Seq::<Chunk>::empty()) == (0int, 0int, 0int),
        chunk_sums(chunks.push(c)) == (
            chunk_sums(chunks).0 + c.spec_metrics().spec_end().ts - c.spec_metrics().spec_start().ts,
            chunk_sums(chunks).1 + c.spec_metrics().spec_end().cycles - c.spec_metrics().spec_start().cycles,
            chunk_sums(chunks).2 + c.spec_metrics().spec_end().insn_count
                - c.spec_metrics().spec_start().insn_count,
        ),
{
    assert(chunks.push(c).drop_last() =~= chunks);
}

pub open spec fn add3(a: (int, int, int), b: (int, int, int)) -> (int, int, int) {
    (a.0 + b.0, a.1 + b.1, a.2 + b.2)
}

/// The totals of a range, as a triple.
pub open spec fn range_totals(m: MetricsRange) -> (int, int, int) {
    (m.spec_total_time(), m.spec_total_cycles(), m.spec_total_insn())
}

pub proof fn lemma_chunk_sums_concat(a: Seq<Chunk>, b: Seq<Chunk>)
    ensures
        chunk_sums(a + b) == add3(chunk_sums(a), chunk_sums(b)),
    decreases b.len(),
{
    if b.len() == 0 {
        assert(a + b =~= a);
    } else {
        lemma_chunk_sums_concat(a, b.drop_last());
        assert((a + b).drop_last() =~= a + b.drop_last());
    }
}

proof fn lemma_chunk_sums_single(c: Chunk)
    ensures
        chunk_sums(seq![c]) == range_totals(c.spec_metrics()),
{
    assert(seq![c].drop_last() =~= Seq::<Chunk>::empty());
    assert(chunk_sums(Seq::<Chunk>::empty()) == (0int, 0int, 0int));
    assert(seq![c].last() == c);
}

/// All chunks of a sequence hold well-formed ranges.
pub open spec fn chunks_wf(chunks: Seq<Chunk>) -> bool {
    forall|i: int| 0 <= i < chunks.len() ==> (#[trigger] chunks[i]).spec_metrics().wf()
}

proof fn lemma_chunk_sums_nonneg(chunks: Seq<Chunk>)
    requires
        chunks_wf(chunks),
    ensures
        chunk_sums(chunks).0 >= 0,
        chunk_sums(chunks).1 >= 0,
        chunk_sums(chunks).2 >= 0,
    decreases chunks.len(),
{
    if chunks.len() > 0 {
        lemma_chunk_sums_nonneg(chunks.drop_last());
        MetricsRange::lemma_wf_is_spec_range(chunks.last().spec_metrics());
    }
}

/// The chunk a straight-line stretch becomes.
pub open spec fn straight(start: Metrics, end: Metrics) -> Chunk {
    Chunk::Straightline(Straightline { metrics: spec_range(start, end) })
}

/// Index of the first straight-line chunk that covers `range`, if any.
pub open spec fn first_fit(chunks: Seq<Chunk>, range: MetricsRange) -> Option<int>
    decreases chunks.len(),
{
    if chunks.len() == 0 {
        None
    } else {
        match first_fit(chunks.drop_last(), range) {
            Some(i) => Some(i),
            None => if fits_in(chunks.last(), range) {
                Some(chunks.len() - 1)
            } else {
                None
            },
        }
    }
}

/// `c` is a straight-line chunk covering `range`.
pub open spec fn fits_in(c: Chunk, range: MetricsRange) -> bool {
    match c {
        Chunk::Straightline(s) => s.metrics.spec_includes(&range),
        Chunk::Frame(_) => false,
    }
}

proof fn lemma_first_fit(chunks: Seq<Chunk>, range: MetricsRange)
    ensures
        match first_fit(chunks, range) {
            Some(i) => 0 <= i < chunks.len() && fits_in(chunks[i], range) && forall|j: int|
                0 <= j < i ==> !fits_in(#[trigger] chunks[j], range),
            None => forall|j: int| 0 <= j < chunks.len() ==> !fits_in(#[trigger] chunks[j], range),
        },
    decreases chunks.len(),
{
    if chunks.len() > 0 {
        lemma_first_fit(chunks.drop_last(), range);
        assert forall|j: int| 0 <= j < chunks.len() - 1 implies chunks.drop_last()[j] == chunks[j] by {}
    }
}

/// The chunks that replace the straight-line chunk `s` when `child` is placed in it:
/// the stretch before the child (unless both start at the same point), the child, and
/// the stretch after it (unless both end at the same point).
pub open spec fn split_around(s: MetricsRange, child: Frame) -> Seq<Chunk> {
    let cm = child.spec_metrics();
    let before = if cm.spec_start() != s.spec_start() {
        seq![straight(s.spec_start(), cm.spec_start())]
    } else {
        Seq::empty()
    };
    let after = if cm.spec_end() != s.spec_end() {
        seq![straight(cm.spec_end(), s.spec_end())]
    } else {
        Seq::empty()
    };
    before + seq![Chunk::Frame(child)] + after
}

/// The chunks after `child` is placed into the straight-line chunk at index `i`.
pub open spec fn place_child(chunks: Seq<Chunk>, i: int, child: Frame) -> Seq<Chunk> {
    let s = match chunks[i] {
        Chunk::Straightline(s) => s.metrics,
        Chunk::Frame(f) => f.spec_metrics(),
    };
    chunks.subrange(0, i) + split_around(s, child) + chunks.subrange(i + 1, chunks.len() as int)
}

impl Chunk {
    /// The range a chunk covers.
    pub open spec fn spec_metrics(&self) -> MetricsRange {
        match self {
            Chunk::Frame(f) => f.spec_metrics(),
            Chunk::Straightline(s) => s.metrics,
        }
    }

    pub fn total_time(&self) -> (r: u64)
        requires
            self.spec_metrics().wf(),
        ensures
            r == self.spec_metrics().spec_total_time(),
    {
        match self {
            Chunk::Frame(frame) => frame.metrics.total_time(),
            Chunk::Straightline(straightline) => straightline.metrics.total_time(),
        }
    }

    pub fn total_cycles(&self) -> (r: u64)
        requires
            self.spec_metrics().wf(),
        ensures
            r == self.spec_metrics().spec_total_cycles(),
    {
        match self {
            Chunk::Frame(frame) => frame.metrics.total_cycles(),
            Chunk::Straightline(straightline) => straightline.metrics.total_cycles(),
        }
    }

    pub fn total_insn(&self) -> (r: u64)
        requires
            self.spec_metrics().wf(),
        ensures
            r == self.spec_metrics().spec_total_insn(),
    {
        match self {
            Chunk::Frame(frame) => frame.metrics.total_insn(),
            Chunk::Straightline(straightline) => straightline.metrics.total_insn(),
        }
    }
}

impl Frame {
    pub closed spec fn spec_metrics(&self) -> MetricsRange {
        self.metrics
    }

    pub closed spec fn spec_symbol(&self) -> SymbolInfo {
        self.symbol
    }

    pub closed spec fn spec_chunks(&self) -> Seq<Chunk> {
        self.chunks@
    }

    /// The frame's range and the ranges of all its chunks are well formed.
    pub open spec fn wf(&self) -> bool {
        self.spec_metrics().wf() && chunks_wf(self.spec_chunks())
    }

    /// The chunks' totals add up to the frame's totals, counter by counter.
    pub open spec fn spec_invariant(&self) -> bool {
        chunk_sums(self.spec_chunks()) == range_totals(self.spec_metrics())
    }

    /// Places `child` into the first straight-line chunk that covers its
    /// range, splitting that chunk around it. Fails with `InvalidRange` (and
    /// leaves the frame unchanged) when no straight-line chunk covers it.
    pub fn add_child(&mut self, child: Frame) -> (r: Result<(), Error>)
        requires
            old(self).wf(),
            child.spec_metrics().wf(),
        ensures
            final(self).spec_metrics() == old(self).spec_metrics(),
            final(self).spec_symbol() == old(self).spec_symbol(),
            match first_fit(old(self).spec_chunks(), child.spec_metrics()) {
                Some(i) => {
                    &&& r is Ok
                    &&& final(self).spec_chunks() == place_child(old(self).spec_chunks(), i, child)
                    &&& final(self).wf()
                    &&& (deep_wf(*old(self)) && deep_wf(child)) ==> deep_wf(*final(self))
                    &&& old(self).spec_invariant() ==> final(self).spec_invariant()
                },
                None => {
                    &&& r == Err::<(), Error>(Error::InvalidRange(child.spec_metrics()))
                    &&& final(self).spec_chunks() == old(self).spec_chunks()
                },
            },
    {
        proof {
            lemma_first_fit(self.chunks@, child.metrics);
        }
        let n = self.chunks.len();
        let mut i: usize = 0;
        while i < n
            invariant
                n == self.chunks@.len(),
                i <= n,
                *self == *old(self),
                self.wf(),
                child.spec_metrics().wf(),
                forall|j: int| 0 <= j < i ==> !fits_in(#[trigger] self.chunks@[j], child.metrics),
                match first_fit(self.chunks@, child.metrics) {
                    Some(k) => 0 <= k < n && fits_in(self.chunks@[k], child.metrics) && forall|j: int|
                        0 <= j < k ==> !fits_in(#[trigger] self.chunks@[j], child.metrics),
                    None => forall|j: int| 0 <= j < n ==> !fits_in(#[trigger] self.chunks@[j], child.metrics),
                },
            decreases n - i,
        {
            let fit = match &self.chunks[i] {
                Chunk::Frame(_) => None,
                Chunk::Straightline(straightline) => {
                    assert(self.chunks@[i as int].spec_metrics().wf());
                    if straightline.metrics.includes_range(&child.metrics) {
                        Some((straightline.metrics.start(), straightline.metrics.end()))
                    } else {
                        None
                    }
                },
            };
            if let Some((s_start, s_end)) = fit {
                let ghost old_chunks = self.chunks@;
                proof {
                    lemma_place_child(old_chunks, i as int, child);
                    lemma_place_child_deep(*self, i as int, child);
                }
                place_at(&mut self.chunks, i, s_start, s_end, child);
                proof {
                    lemma_deep_wf_iff(*self);
                }
                return Ok(());
            }
            i += 1;
        }
        Err(Error::InvalidRange(child.metrics))
    }

    /// The invariant holds exactly when, in each of the three counters
    /// (timestamp, cycles and instructions), the chunks' spans add up to the
    /// frame's span, the span of a range being its end less its start.
    pub proof fn lemma_invariant_is_three_sums(&self)
        ensures
            self.spec_invariant() <==> ({
                let m = self.spec_metrics();
                let sums = chunk_sums(self.spec_chunks());
                &&& sums.0 == m.spec_end().ts - m.spec_start().ts
                &&& sums.1 == m.spec_end().cycles - m.spec_start().cycles
                &&& sums.2 == m.spec_end().insn_count - m.spec_start().insn_count
            }),
    {
    }

    /// Whether the chunks' totals add up to the frame's totals.
    pub fn check_invariant(&self) -> (r: bool)
        requires
            self.wf(),
            chunk_sums(self.spec_chunks()).0 <= u64::MAX,
            chunk_sums(self.spec_chunks()).1 <= u64::MAX,
            chunk_sums(self.spec_chunks()).2 <= u64::MAX,
        ensures
            r == self.spec_invariant(),
    {
        let mut total_time: u64 = 0;
        let mut total_cycles: u64 = 0;
        let mut total_insn: u64 = 0;
        let n = self.chunks.len();
        let mut i: usize = 0;
        while i < n
            invariant
                n == self.chunks@.len(),
                i <= n,
                self.wf(),
                chunk_sums(self.spec_chunks()).0 <= u64::MAX,
                chunk_sums(self.spec_chunks()).1 <= u64::MAX,
                chunk_sums(self.spec_chunks()).2 <= u64::MAX,
                (total_time as int, total_cycles as int, total_insn as int) == chunk_sums(
                    self.chunks@.subrange(0, i as int),
                ),
            decreases n - i,
        {
            proof {
                lemma_chunk_sums_step(self.chunks@, i as int);
                lemma_chunk_sums_prefix(self.chunks@, i + 1);
            }
            let chunk = &self.chunks[i];
            assert(chunk.spec_metrics().wf());
            total_time += chunk.total_time();
            total_cycles += chunk.total_cycles();
            total_insn += chunk.total_insn();
            i += 1;
        }
        assert(self.chunks@.subrange(0, n as int) =~= self.chunks@);
        total_time == self.metrics.total_time() && total_cycles == self.metrics.total_cycles()
            && total_insn == self.metrics.total_insn()
    }

    /// Reassembles a frame from stored parts, as they are.
    pub fn from_parts(metrics: MetricsRange, symbol: SymbolInfo, chunks: Vec<Chunk>) -> (r: Self)
        ensures
            r.spec_metrics() == metrics,
            r.spec_symbol() == symbol,
            r.spec_chunks() == chunks@,
    {
        Frame { metrics, symbol, chunks }
    }

    pub fn chunks(&self) -> (r: &[Chunk])
        ensures
            r@ == self.spec_chunks(),
    {
        self.chunks.as_slice()
    }

    pub fn new(metrics: MetricsRange, symbol: SymbolInfo) -> (r: Self)
        requires
            metrics.wf(),
        ensures
            r.spec_metrics() == metrics,
            r.spec_symbol() == symbol,
            r.spec_chunks() == seq![Chunk::Straightline(Straightline { metrics })],
            r.wf(),
            deep_wf(r),
            r.spec_invariant(),
    {
        let inner = metrics.clone();
        let r = Self { metrics, symbol, chunks: vec![Chunk::Straightline(Straightline { metrics: inner })] };
        assert(r.chunks@ == seq![Chunk::Straightline(Straightline { metrics })]);
        proof {
            lemma_chunk_sums_single(Chunk::Straightline(Straightline { metrics }));
            lemma_deep_wf_iff(r);
        }
        r
    }
}

proof fn lemma_chunk_sums_prefix(chunks: Seq<Chunk>, i: int)
    requires
        chunks_wf(chunks),
        0 <= i <= chunks.len(),
    ensures
        chunk_sums(chunks.subrange(0, i)).0 <= chunk_sums(chunks).0,
        chunk_sums(chunks.subrange(0, i)).1 <= chunk_sums(chunks).1,
        chunk_sums(chunks.subrange(0, i)).2 <= chunk_sums(chunks).2,
{
    let a = chunks.subrange(0, i);
    let b = chunks.subrange(i, chunks.len() as int);
    assert(chunks =~= a + b);
    lemma_chunk_sums_concat(a, b);
    assert(chunks_wf(b)) by {
        assert forall|j: int| 0 <= j < b.len() implies (#[trigger] b[j]).spec_metrics().wf() by {
            assert(b[j] == chunks[i + j]);
        }
    }
    lemma_chunk_sums_nonneg(b);
}

proof fn lemma_chunk_sums_step(chunks: Seq<Chunk>, i: int)
    requires
        0 <= i < chunks.len(),
    ensures
        chunk_sums(chunks.subrange(0, i + 1)) == add3(
            chunk_sums(chunks.subrange(0, i)),
            range_totals(chunks[i].spec_metrics()),
        ),
{
    assert(chunks.subrange(0, i + 1).drop_last() =~= chunks.subrange(0, i));
}

/// Splitting a covering stretch around a child keeps the stretch's totals.
proof fn lemma_split_sums(s: MetricsRange, child: Frame)
    requires
        s.wf(),
        child.spec_metrics().wf(),
        s.spec_includes(&child.spec_metrics()),
    ensures
        chunk_sums(split_around(s, child)) == range_totals(s),
        chunks_wf(split_around(s, child)),
{
    let cm = child.spec_metrics();
    MetricsRange::lemma_wf_is_spec_range(s);
    MetricsRange::lemma_wf_is_spec_range(cm);
    let before = if cm.spec_start() != s.spec_start() {
        seq![straight(s.spec_start(), cm.spec_start())]
    } else {
        Seq::<Chunk>::empty()
    };
    let after = if cm.spec_end() != s.spec_end() {
        seq![straight(cm.spec_end(), s.spec_end())]
    } else {
        Seq::<Chunk>::empty()
    };
    let mid = seq![Chunk::Frame(child)];
    lemma_chunk_sums_concat(before, mid);
    lemma_chunk_sums_concat(before + mid, after);
    lemma_chunk_sums_single(Chunk::Frame(child));
    if cm.spec_start() != s.spec_start() {
        MetricsRange::lemma_spec_range(s.spec_start(), cm.spec_start());
        lemma_chunk_sums_single(straight(s.spec_start(), cm.spec_start()));
    } else {
        assert(chunk_sums(before) == (0int, 0int, 0int));
    }
    if cm.spec_end() != s.spec_end() {
        MetricsRange::lemma_spec_range(cm.spec_end(), s.spec_end());
        lemma_chunk_sums_single(straight(cm.spec_end(), s.spec_end()));
    } else {
        assert(chunk_sums(after) == (0int, 0int, 0int));
    }
    let all = before + mid + after;
    assert forall|j: int| 0 <= j < all.len() implies (#[trigger] all[j]).spec_metrics().wf() by {
        if cm.spec_start() != s.spec_start() {
            MetricsRange::lemma_spec_range(s.spec_start(), cm.spec_start());
        }
        if cm.spec_end() != s.spec_end() {
            MetricsRange::lemma_spec_range(cm.spec_end(), s.spec_end());
        }
    }
}

/// Replaces the straight-line chunk at `i` (covering `[s_start, s_end)`) by
/// the stretch before `child`, `child`, and the stretch after it.
fn place_at(chunks: &mut Vec<Chunk>, i: usize, s_start: Metrics, s_end: Metrics, child: Frame)
    requires
        0 <= i < old(chunks)@.len(),
        fits_in(old(chunks)@[i as int], child.spec_metrics()),
        old(chunks)@[i as int].spec_metrics().wf(),
        old(chunks)@[i as int].spec_metrics().spec_start() == s_start,
        old(chunks)@[i as int].spec_metrics().spec_end() == s_end,
        child.spec_metrics().wf(),
    ensures
        final(chunks)@ == place_child(old(chunks)@, i as int, child),
{
    let ghost old_chunks = chunks@;
    let c_start = child.metrics.start();
    let c_end = child.metrics.end();
    let mut idx = i;
    if c_start != s_start {
        let before = Straightline { metrics: MetricsRange::new(s_start, &c_start) };
        chunks.insert(i, Chunk::Straightline(before));
        let grown = chunks.len();
        assert(i + 1 < grown);
        idx = i + 1;
    }
    let len = chunks.len();
    assert(idx < len);
    if c_end != s_end {
        let after = Straightline { metrics: MetricsRange::new(c_end, &s_end) };
        chunks.insert(idx + 1, Chunk::Straightline(after));
    }
    chunks.set(idx, Chunk::Frame(child));
    assert(chunks@ =~= place_child(old_chunks, i as int, child));
}

/// Placing a child that is well formed all the way down keeps a frame so.
proof fn lemma_place_child_deep(f: Frame, i: int, child: Frame)
    requires
        0 <= i < f.spec_chunks().len(),
        fits_in(f.spec_chunks()[i], child.spec_metrics()),
        f.spec_chunks()[i].spec_metrics().wf(),
        child.spec_metrics().wf(),
    ensures
        deep_wf(f) && deep_wf(child) ==> forall|j: int|
            0 <= j < place_child(f.spec_chunks(), i, child).len() ==> #[trigger] chunk_deep_wf(
                place_child(f.spec_chunks(), i, child)[j],
            ),
{
    if deep_wf(f) && deep_wf(child) {
        lemma_deep_wf_iff(f);
        let old_chunks = f.spec_chunks();
        let s = old_chunks[i].spec_metrics();
        let split = split_around(s, child);
        let new_chunks = place_child(old_chunks, i, child);
        let cm = child.spec_metrics();
        MetricsRange::lemma_wf_is_spec_range(s);
        MetricsRange::lemma_wf_is_spec_range(cm);
        if cm.spec_start() != s.spec_start() {
            MetricsRange::lemma_spec_range(s.spec_start(), cm.spec_start());
        }
        if cm.spec_end() != s.spec_end() {
            MetricsRange::lemma_spec_range(cm.spec_end(), s.spec_end());
        }
        assert forall|j: int| 0 <= j < split.len() implies #[trigger] chunk_deep_wf(split[j]) by {}
        assert forall|j: int| 0 <= j < new_chunks.len() implies #[trigger] chunk_deep_wf(new_chunks[j]) by {
            if j < i {
                assert(new_chunks[j] == old_chunks[j]);
            } else if j < i + split.len() {
                assert(new_chunks[j] == split[j - i]);
            } else {
                assert(new_chunks[j] == old_chunks[j - split.len() + 1]);
            }
        }
    }
}

/// Placing `child` at a covering straight-line chunk keeps every chunk well
/// formed, and keeps the chunk totals.
proof fn lemma_place_child(old_chunks: Seq<Chunk>, i: int, child: Frame)
    requires
        0 <= i < old_chunks.len(),
        fits_in(old_chunks[i], child.spec_metrics()),
        chunks_wf(old_chunks),
        child.spec_metrics().wf(),
    ensures
        chunks_wf(place_child(old_chunks, i, child)),
        chunk_sums(place_child(old_chunks, i, child)) == chunk_sums(old_chunks),
{
    let s = old_chunks[i].spec_metrics();
    let pre = old_chunks.subrange(0, i);
    let post = old_chunks.subrange(i + 1, old_chunks.len() as int);
    let split = split_around(s, child);
    let new_chunks = place_child(old_chunks, i, child);
    assert(old_chunks =~= pre + seq![old_chunks[i]] + post);
    assert(new_chunks =~= pre + split + post);
    lemma_chunk_sums_concat(pre + seq![old_chunks[i]], post);
    lemma_chunk_sums_concat(pre, seq![old_chunks[i]]);
    lemma_chunk_sums_concat(pre + split, post);
    lemma_chunk_sums_concat(pre, split);
    lemma_chunk_sums_single(old_chunks[i]);
    lemma_split_sums(s, child);
    assert(chunks_wf(split)) by {
        MetricsRange::lemma_wf_is_spec_range(s);
        MetricsRange::lemma_wf_is_spec_range(child.spec_metrics());
        let cm = child.spec_metrics();
        if cm.spec_start() != s.spec_start() {
            MetricsRange::lemma_spec_range(s.spec_start(), cm.spec_start());
        }
        if cm.spec_end() != s.spec_end() {
            MetricsRange::lemma_spec_range(cm.spec_end(), s.spec_end());
        }
    }
    assert forall|j: int| 0 <= j < new_chunks.len() implies (
    #[trigger] new_chunks[j]).spec_metrics().wf() by {
        if j < i {
            assert(new_chunks[j] == old_chunks[j]);
        } else if j < i + split.len() {
            assert(new_chunks[j] == split[j - i]);
        } else {
            assert(new_chunks[j] == old_chunks[j - split.len() + 1]);
        }
    }
}

impl Clone for Straightline {
    fn clone(&self) -> (r: Self)
        ensures
            r == *self,
    {
        Straightline { metrics: self.metrics.clone() }
    }
}

/// `b` holds the same contents as `a`, chunk by chunk.
pub closed spec fn same_chunk(a: Chunk, b: Chunk) -> bool
    decreases a, 0nat,
{
    match (a, b) {
        (Chunk::Frame(x), Chunk::Frame(y)) => same_frame(x, y),
        (Chunk::Straightline(x), Chunk::Straightline(y)) => x == y,
        _ => false,
    }
}

/// `b` has the range and symbol of `a`, and chunks with the same contents.
pub closed spec fn same_frame(a: Frame, b: Frame) -> bool
    decreases a, 1nat,
{
    &&& b.metrics == a.metrics
    &&& b.symbol == a.symbol
    &&& b.chunks@.len() == a.chunks@.len()
    &&& forall|i: int|
        0 <= i < a.chunks@.len() ==> #[trigger] same_chunk_at(a, b, i)
}

spec fn same_chunk_at(a: Frame, b: Frame, i: int) -> bool
    decreases a, 0nat, i,
{
    if 0 <= i < a.chunks@.len() {
        proof {
            vstd::std_specs::vec::axiom_vec_index_decreases(a.chunks, i);
        }
        same_chunk(a.chunks@[i], b.chunks@[i])
    } else {
        true
    }
}

impl Clone for Chunk {
    fn clone(&self) -> (r: Self)
        ensures
            same_chunk(*self, r),
        decreases self, 0nat,
    {
        match self {
            Chunk::Frame(f) => Chunk::Frame(f.clone()),
            Chunk::Straightline(s) => Chunk::Straightline(s.clone()),
        }
    }
}

impl Clone for Frame {
    fn clone(&self) -> (r: Self)
        ensures
            same_frame(*self, r),
        decreases self, 1nat,
    {
        let mut chunks: Vec<Chunk> = Vec::new();
        let n = self.chunks.len();
        let mut i: usize = 0;
        while i < n
            invariant
                n == self.chunks@.len(),
                i <= n,
                chunks@.len() == i,
                forall|j: int| 0 <= j < i ==> same_chunk(self.chunks@[j], #[trigger] chunks@[j]),
            decreases n - i,
        {
            proof {
                vstd::std_specs::vec::axiom_vec_index_decreases(self.chunks, i as int);
            }
            let c = self.chunks[i].clone();
            chunks.push(c);
            i += 1;
        }
        let r = Frame { metrics: self.metrics.clone(), symbol: self.symbol.clone(), chunks };
        assert forall|j: int| 0 <= j < self.chunks@.len() implies #[trigger] same_chunk_at(*self, r, j) by {}
        r
    }
}

/// The frames of a call tree in pre-order: a frame, then the frames under
/// each of its chunks in chunk order.
pub closed spec fn preorder(f: Frame) -> Seq<Frame>
    decreases f, 1nat, 0int,
{
    seq![f] + preorder_chunks(f, f.chunks@.len() as int)
}

/// The pre-order frames under the first `k` chunks of `f`.
pub closed spec fn preorder_chunks(f: Frame, k: int) -> Seq<Frame>
    decreases f, 0nat, k,
{
    if k <= 0 || k > f.chunks@.len() {
        Seq::empty()
    } else {
        proof {
            vstd::std_specs::vec::axiom_vec_index_decreases(f.chunks, k - 1);
        }
        preorder_chunks(f, k - 1) + match f.chunks@[k - 1] {
            Chunk::Frame(g) => preorder(g),
            Chunk::Straightline(_) => Seq::empty(),
        }
    }
}

/// Every range in the call tree rooted at `f` is well formed.
pub closed spec fn deep_wf(f: Frame) -> bool
    decreases f, 2nat, 0int,
{
    f.metrics.wf() && deep_wf_upto(f, f.chunks@.len() as int)
}

/// The first `k` chunks of `f` are well formed all the way down.
pub closed spec fn deep_wf_upto(f: Frame, k: int) -> bool
    decreases f, 1nat, k,
{
    if k <= 0 || k > f.chunks@.len() {
        true
    } else {
        deep_wf_upto(f, k - 1) && deep_wf_at(f, k - 1)
    }
}

/// The chunk at index `k` of `f` is well formed all the way down.
pub closed spec fn deep_wf_at(f: Frame, k: int) -> bool
    decreases f, 0nat, k,
{
    if 0 <= k < f.chunks@.len() {
        proof {
            vstd::std_specs::vec::axiom_vec_index_decreases(f.chunks, k);
        }
        match f.chunks@[k] {
            Chunk::Frame(g) => deep_wf(g),
            Chunk::Straightline(s) => s.metrics.wf(),
        }
    } else {
        true
    }
}

/// A chunk is well formed all the way down.
pub open spec fn chunk_deep_wf(c: Chunk) -> bool {
    match c {
        Chunk::Frame(g) => deep_wf(g),
        Chunk::Straightline(s) => s.metrics.wf(),
    }
}

proof fn lemma_deep_wf_upto_iff(f: Frame, k: int)
    requires
        0 <= k <= f.chunks@.len(),
    ensures
        deep_wf_upto(f, k) == forall|j: int| 0 <= j < k ==> #[trigger] chunk_deep_wf(f.chunks@[j]),
    decreases k,
{
    if k > 0 {
        lemma_deep_wf_upto_iff(f, k - 1);
        assert(deep_wf_at(f, k - 1) == chunk_deep_wf(f.chunks@[k - 1]));
        if deep_wf_upto(f, k) {
            assert forall|j: int| 0 <= j < k implies #[trigger] chunk_deep_wf(f.chunks@[j]) by {
                if j < k - 1 {
                }
            }
        }
    }
}

/// Deep well-formedness, chunk by chunk.
pub proof fn lemma_deep_wf_iff(f: Frame)
    ensures
        deep_wf(f) == (f.spec_metrics().wf() && forall|j: int|
            0 <= j < f.spec_chunks().len() ==> #[trigger] chunk_deep_wf(f.spec_chunks()[j])),
{
    lemma_deep_wf_upto_iff(f, f.chunks@.len() as int);
    assert(deep_wf(f) == (f.metrics.wf() && deep_wf_upto(f, f.chunks@.len() as int)));
    assert(f.spec_chunks() == f.chunks@);
    if deep_wf(f) {
        assert forall|j: int| 0 <= j < f.spec_chunks().len() implies #[trigger] chunk_deep_wf(f.spec_chunks()[j]) by {
            assert(chunk_deep_wf(f.chunks@[j]));
        }
    }
    if f.spec_metrics().wf() && forall|j: int|
        0 <= j < f.spec_chunks().len() ==> #[trigger] chunk_deep_wf(f.spec_chunks()[j]) {
        assert forall|j: int| 0 <= j < f.chunks@.len() implies #[trigger] chunk_deep_wf(f.chunks@[j]) by {
            assert(chunk_deep_wf(f.spec_chunks()[j]));
        }
    }
}

proof fn lemma_deep_wf_upto(f: Frame, k: int, i: int)
    requires
        0 <= i < k <= f.chunks@.len(),
        deep_wf_upto(f, k),
    ensures
        deep_wf_at(f, i),
    decreases k,
{
    if i < k - 1 {
        lemma_deep_wf_upto(f, k - 1, i);
    }
}

proof fn lemma_deep_wf_chunk(f: Frame, i: int)
    requires
        deep_wf(f),
        0 <= i < f.chunks@.len(),
    ensures
        deep_wf_at(f, i),
{
    lemma_deep_wf_upto(f, f.chunks@.len() as int, i);
}

/// A frame well formed all the way down is well formed.
pub proof fn lemma_deep_wf_shallow(f: Frame)
    requires
        deep_wf(f),
    ensures
        f.wf(),
{
    assert forall|i: int| 0 <= i < f.spec_chunks().len() implies (#[trigger] f.spec_chunks()[i]).spec_metrics().wf() by {
        lemma_deep_wf_chunk(f, i);
        match f.chunks@[i] {
            Chunk::Frame(g) => {
                assert(deep_wf(g));
            },
            Chunk::Straightline(_) => {},
        }
    }
}

/// Every frame met in a pre-order walk of a tree well formed all the way
/// down has a well-formed range.
pub proof fn lemma_deep_wf_preorder(f: Frame)
    requires
        deep_wf(f),
    ensures
        forall|i: int| 0 <= i < preorder(f).len() ==> (#[trigger] preorder(f)[i]).spec_metrics().wf(),
    decreases f, 1nat, 0int,
{
    lemma_deep_wf_preorder_chunks(f, f.chunks@.len() as int);
    let rest = preorder_chunks(f, f.chunks@.len() as int);
    assert forall|i: int| 0 <= i < preorder(f).len() implies (#[trigger] preorder(f)[i]).spec_metrics().wf() by {
        if i > 0 {
            assert(preorder(f)[i] == rest[i - 1]);
        }
    }
}

proof fn lemma_deep_wf_preorder_chunks(f: Frame, k: int)
    requires
        deep_wf(f),
        0 <= k <= f.chunks@.len(),
    ensures
        forall|i: int|
            0 <= i < preorder_chunks(f, k).len() ==> (#[trigger] preorder_chunks(f, k)[i]).spec_metrics().wf(),
    decreases f, 0nat, k,
{
    if k > 0 {
        vstd::std_specs::vec::axiom_vec_index_decreases(f.chunks, k - 1);
        lemma_deep_wf_preorder_chunks(f, k - 1);
        let prev = preorder_chunks(f, k - 1);
        lemma_deep_wf_chunk(f, k - 1);
        match f.chunks@[k - 1] {
            Chunk::Frame(g) => {
                lemma_deep_wf_preorder(g);
                let sub = preorder(g);
                assert(preorder_chunks(f, k) == prev + sub);
                assert forall|i: int| 0 <= i < preorder_chunks(f, k).len() implies (
                #[trigger] preorder_chunks(f, k)[i]).spec_metrics().wf() by {
                    if i >= prev.len() {
                        assert(preorder_chunks(f, k)[i] == sub[i - prev.len()]);
                    } else {
                        assert(preorder_chunks(f, k)[i] == prev[i]);
                    }
                }
            },
            Chunk::Straightline(_) => {
                assert(preorder_chunks(f, k) =~= prev);
            },
        }
    }
}

/// The first frame of a pre-order walk is the frame itself.
pub proof fn lemma_preorder_first(f: Frame)
    ensures
        preorder(f).len() >= 1,
        preorder(f)[0] == f,
{
}

impl Frame {
    pub fn metrics(&self) -> (r: &MetricsRange)
        ensures
            *r == self.spec_metrics(),
    {
        &self.metrics
    }

    pub fn symbol(&self) -> (r: &SymbolInfo)
        ensures
            *r == self.spec_symbol(),
    {
        &self.symbol
    }

    /// All frames of the call tree rooted here, in pre-order.
    pub fn preorder(&self) -> (r: Vec<&Frame>)
        ensures
            r@.map_values(|g: &Frame| *g) == preorder(*self),
    {
        let mut out: Vec<&Frame> = Vec::new();
        collect_preorder(self, &mut out);
        assert(out@.map_values(|g: &Frame| *g) =~= preorder(*self));
        out
    }
}

fn collect_preorder<'a>(f: &'a Frame, out: &mut Vec<&'a Frame>)
    ensures
        final(out)@.map_values(|g: &Frame| *g) == old(out)@.map_values(|g: &Frame| *g) + preorder(*f),
    decreases *f,
{
    let ghost start = out@.map_values(|g: &Frame| *g);
    out.push(f);
    assert(out@.map_values(|g: &Frame| *g) =~= start + seq![*f]);
    let n = f.chunks.len();
    let mut i: usize = 0;
    while i < n
        invariant
            n == f.chunks@.len(),
            i <= n,
            out@.map_values(|g: &Frame| *g) == start + seq![*f] + preorder_chunks(*f, i as int),
        decreases n - i,
    {
        proof {
            vstd::std_specs::vec::axiom_vec_index_decreases(f.chunks, i as int);
        }
        let ghost before = out@.map_values(|g: &Frame| *g);
        match &f.chunks[i] {
            Chunk::Frame(g) => {
                collect_preorder(g, out);
            },
            Chunk::Straightline(_) => {},
        }
        assert(out@.map_values(|g: &Frame| *g) =~= start + seq![*f] + preorder_chunks(*f, i + 1));
        i += 1;
    }
    assert(preorder(*f) == seq![*f] + preorder_chunks(*f, n as int));
}

} // verus!
