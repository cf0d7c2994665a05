use vstd::prelude::*;

use crate::text::{decimal, push_decimal};

verus! {

/// A point in an execution: wall-clock timestamp, cycle count and retired
/// instruction count.
#[derive(Debug, Clone, Copy, PartialEq, Eq, Hash, Structural)]
pub struct Metrics {
    pub ts: u64,
    pub cycles: u64,
    pub insn_count: u64,
}

/// `a` lies at or after `b` in every one of the three counters.
pub open spec fn dominates(a: Metrics, b: Metrics) -> bool {
    &&& a.ts >= b.ts
    &&& a.cycles >= b.cycles
    &&& a.insn_count >= b.insn_count
}

impl Metrics {
    pub fn new(ts: u64, cycles: u64, insn_count: u64) -> (m: Self)
        ensures
            m == (Metrics { ts, cycles, insn_count }),
    {
        Self { ts, cycles, insn_count }
    }

    pub fn constant(c: u64) -> (m: Self)
        ensures
            m == (Metrics { ts: c, cycles: c, insn_count: c }),
    {
        Self { ts: c, cycles: c, insn_count: c }
    }
}

/// How metrics are shown: `(ts: .., cycles: .., insn_count: ..)`.
pub open spec fn metrics_text(m: Metrics) -> Seq<char> {
    "(ts: "@ + decimal(m.ts as nat) + ", cycles: "@ + decimal(m.cycles as nat) + ", insn_count: "@
        + decimal(m.insn_count as nat) + ")"@
}

impl Metrics {
    pub fn to_string(&self) -> (r: String)
        ensures
            r@ == metrics_text(*self),
    {
        let mut s = String::from_str("(ts: ");
        push_decimal(&mut s, self.ts);
        s.append(", cycles: ");
        push_decimal(&mut s, self.cycles);
        s.append(", insn_count: ");
        push_decimal(&mut s, self.insn_count);
        s.append(")");
        s
    }
}

/// Field-wise sum, defined where no field overflows.
pub open spec fn sum_fits(a: Metrics, b: Metrics) -> bool {
    &&& a.ts + b.ts <= u64::MAX
    &&& a.cycles + b.cycles <= u64::MAX
    &&& a.insn_count + b.insn_count <= u64::MAX
}

pub open spec fn metrics_add(a: Metrics, b: Metrics) -> Metrics {
    Metrics {
        ts: (a.ts + b.ts) as u64,
        cycles: (a.cycles + b.cycles) as u64,
        insn_count: (a.insn_count + b.insn_count) as u64,
    }
}

pub open spec fn metrics_sub(a: Metrics, b: Metrics) -> Metrics {
    Metrics {
        ts: (a.ts - b.ts) as u64,
        cycles: (a.cycles - b.cycles) as u64,
        insn_count: (a.insn_count - b.insn_count) as u64,
    }
}

pub open spec fn product_fits(a: Metrics, b: Metrics) -> bool {
    &&& a.ts * b.ts <= u64::MAX
    &&& a.cycles * b.cycles <= u64::MAX
    &&& a.insn_count * b.insn_count <= u64::MAX
}

pub open spec fn metrics_mul(a: Metrics, b: Metrics) -> Metrics {
    Metrics {
        ts: (a.ts * b.ts) as u64,
        cycles: (a.cycles * b.cycles) as u64,
        insn_count: (a.insn_count * b.insn_count) as u64,
    }
}

pub open spec fn metrics_div(a: Metrics, b: Metrics) -> Metrics {
    Metrics {
        ts: (a.ts / b.ts) as u64,
        cycles: (a.cycles / b.cycles) as u64,
        insn_count: (a.insn_count / b.insn_count) as u64,
    }
}

pub open spec fn nonzero(a: Metrics) -> bool {
    a.ts != 0 && a.cycles != 0 && a.insn_count != 0
}

fn add_fields(a: &Metrics, b: &Metrics) -> (r: Metrics)
    requires
        sum_fits(*a, *b),
    ensures
        r == metrics_add(*a, *b),
{
    Metrics { ts: a.ts + b.ts, cycles: a.cycles + b.cycles, insn_count: a.insn_count + b.insn_count }
}

fn sub_fields(a: &Metrics, b: &Metrics) -> (r: Metrics)
    requires
        dominates(*a, *b),
    ensures
        r == metrics_sub(*a, *b),
{
    Metrics { ts: a.ts - b.ts, cycles: a.cycles - b.cycles, insn_count: a.insn_count - b.insn_count }
}

fn mul_fields(a: &Metrics, b: &Metrics) -> (r: Metrics)
    requires
        product_fits(*a, *b),
    ensures
        r == metrics_mul(*a, *b),
{
    Metrics { ts: a.ts * b.ts, cycles: a.cycles * b.cycles, insn_count: a.insn_count * b.insn_count }
}

fn div_fields(a: &Metrics, b: &Metrics) -> (r: Metrics)
    requires
        nonzero(*b),
    ensures
        r == metrics_div(*a, *b),
{
    Metrics { ts: a.ts / b.ts, cycles: a.cycles / b.cycles, insn_count: a.insn_count / b.insn_count }
}

impl core::ops::Add for Metrics {
    type Output = Metrics;

    fn add(self, rhs: Self) -> (r: Self::Output) {
        add_fields(&self, &rhs)
    }
}

impl vstd::std_specs::ops::AddSpecImpl for Metrics {
    open spec fn obeys_add_spec() -> bool {
        true
    }

    open spec fn add_req(self, rhs: Metrics) -> bool {
        sum_fits(self, rhs)
    }

    open spec fn add_spec(self, rhs: Metrics) -> Metrics {
        metrics_add(self, rhs)
    }
}

impl<'a> core::ops::Add for &'a Metrics {
    type Output = Metrics;

    fn add(self, rhs: Self) -> (r: Self::Output) {
        add_fields(self, rhs)
    }
}

impl<'a> vstd::std_specs::ops::AddSpecImpl for &'a Metrics {
    open spec fn obeys_add_spec() -> bool {
        true
    }

    open spec fn add_req(self, rhs: &'a Metrics) -> bool {
        sum_fits(*self, *rhs)
    }

    open spec fn add_spec(self, rhs: &'a Metrics) -> Metrics {
        metrics_add(*self, *rhs)
    }
}

impl core::ops::Sub for Metrics {
    type Output = Metrics;

    fn sub(self, rhs: Self) -> (r: Self::Output) {
        sub_fields(&self, &rhs)
    }
}

impl vstd::std_specs::ops::SubSpecImpl for Metrics {
    open spec fn obeys_sub_spec() -> bool {
        true
    }

    open spec fn sub_req(self, rhs: Metrics) -> bool {
        dominates(self, rhs)
    }

    open spec fn sub_spec(self, rhs: Metrics) -> Metrics {
        metrics_sub(self, rhs)
    }
}

impl<'a> core::ops::Sub for &'a Metrics {
    type Output = Metrics;

    fn sub(self, rhs: Self) -> (r: Self::Output) {
        sub_fields(self, rhs)
    }
}

impl<'a> vstd::std_specs::ops::SubSpecImpl for &'a Metrics {
    open spec fn obeys_sub_spec() -> bool {
        true
    }

    open spec fn sub_req(self, rhs: &'a Metrics) -> bool {
        dominates(*self, *rhs)
    }

    open spec fn sub_spec(self, rhs: &'a Metrics) -> Metrics {
        metrics_sub(*self, *rhs)
    }
}

impl core::ops::Mul for Metrics {
    type Output = Metrics;

    fn mul(self, rhs: Self) -> (r: Self::Output) {
        mul_fields(&self, &rhs)
    }
}

impl vstd::std_specs::ops::MulSpecImpl for Metrics {
    open spec fn obeys_mul_spec() -> bool {
        true
    }

    open spec fn mul_req(self, rhs: Metrics) -> bool {
        product_fits(self, rhs)
    }

    open spec fn mul_spec(self, rhs: Metrics) -> Metrics {
        metrics_mul(self, rhs)
    }
}

impl<'a> core::ops::Mul for &'a Metrics {
    type Output = Metrics;

    fn mul(self, rhs: Self) -> (r: Self::Output) {
        mul_fields(self, rhs)
    }
}

impl<'a> vstd::std_specs::ops::MulSpecImpl for &'a Metrics {
    open spec fn obeys_mul_spec() -> bool {
        true
    }

    open spec fn mul_req(self, rhs: &'a Metrics) -> bool {
        product_fits(*self, *rhs)
    }

    open spec fn mul_spec(self, rhs: &'a Metrics) -> Metrics {
        metrics_mul(*self, *rhs)
    }
}

impl core::ops::Mul<u64> for Metrics {
    type Output = Metrics;

    fn mul(self, rhs: u64) -> (r: Self::Output) {
        mul_fields(&self, &Metrics::constant(rhs))
    }
}

impl vstd::std_specs::ops::MulSpecImpl<u64> for Metrics {
    open spec fn obeys_mul_spec() -> bool {
        true
    }

    open spec fn mul_req(self, rhs: u64) -> bool {
        product_fits(self, Metrics { ts: rhs, cycles: rhs, insn_count: rhs })
    }

    open spec fn mul_spec(self, rhs: u64) -> Metrics {
        metrics_mul(self, Metrics { ts: rhs, cycles: rhs, insn_count: rhs })
    }
}

impl<'a> core::ops::Mul<u64> for &'a Metrics {
    type Output = Metrics;

    fn mul(self, rhs: u64) -> (r: Self::Output) {
        mul_fields(self, &Metrics::constant(rhs))
    }
}

impl<'a> vstd::std_specs::ops::MulSpecImpl<u64> for &'a Metrics {
    open spec fn obeys_mul_spec() -> bool {
        true
    }

    open spec fn mul_req(self, rhs: u64) -> bool {
        product_fits(*self, Metrics { ts: rhs, cycles: rhs, insn_count: rhs })
    }

    open spec fn mul_spec(self, rhs: u64) -> Metrics {
        metrics_mul(*self, Metrics { ts: rhs, cycles: rhs, insn_count: rhs })
    }
}

impl core::ops::Div for Metrics {
    type Output = Metrics;

    fn div(self, rhs: Self) -> (r: Self::Output) {
        div_fields(&self, &rhs)
    }
}

impl vstd::std_specs::ops::DivSpecImpl for Metrics {
    open spec fn obeys_div_spec() -> bool {
        true
    }

    open spec fn div_req(self, rhs: Metrics) -> bool {
        nonzero(rhs)
    }

    open spec fn div_spec(self, rhs: Metrics) -> Metrics {
        metrics_div(self, rhs)
    }
}

impl<'a> core::ops::Div for &'a Metrics {
    type Output = Metrics;

    fn div(self, rhs: Self) -> (r: Self::Output) {
        div_fields(self, rhs)
    }
}

impl<'a> vstd::std_specs::ops::DivSpecImpl for &'a Metrics {
    open spec fn obeys_div_spec() -> bool {
        true
    }

    open spec fn div_req(self, rhs: &'a Metrics) -> bool {
        nonzero(*rhs)
    }

    open spec fn div_spec(self, rhs: &'a Metrics) -> Metrics {
        metrics_div(*self, *rhs)
    }
}

impl core::ops::Div<u64> for Metrics {
    type Output = Metrics;

    fn div(self, rhs: u64) -> (r: Self::Output) {
        div_fields(&self, &Metrics::constant(rhs))
    }
}

impl vstd::std_specs::ops::DivSpecImpl<u64> for Metrics {
    open spec fn obeys_div_spec() -> bool {
        true
    }

    open spec fn div_req(self, rhs: u64) -> bool {
        rhs != 0
    }

    open spec fn div_spec(self, rhs: u64) -> Metrics {
        metrics_div(self, Metrics { ts: rhs, cycles: rhs, insn_count: rhs })
    }
}

impl<'a> core::ops::Div<u64> for &'a Metrics {
    type Output = Metrics;

    fn div(self, rhs: u64) -> (r: Self::Output) {
        div_fields(self, &Metrics::constant(rhs))
    }
}

impl<'a> vstd::std_specs::ops::DivSpecImpl<u64> for &'a Metrics {
    open spec fn obeys_div_spec() -> bool {
        true
    }

    open spec fn div_req(self, rhs: u64) -> bool {
        rhs != 0
    }

    open spec fn div_spec(self, rhs: u64) -> Metrics {
        metrics_div(*self, Metrics { ts: rhs, cycles: rhs, insn_count: rhs })
    }
}


/// Width in bits of each counter difference packed into an inline range end.
pub const FIELD_BITS: u64 = 21;

/// Mask selecting one packed counter difference.
pub const FIELD_MASK: u64 = 0x1FFFFF;

pub open spec fn fits_field(x: u64) -> bool {
    x < 0x200000
}

pub open spec fn fits_inline(d: Metrics) -> bool {
    fits_field(d.ts) && fits_field(d.cycles) && fits_field(d.insn_count)
}

/// The three differences packed into the low 63 bits: timestamp in the top
/// field, then cycles, then instructions.
pub open spec fn pack(d: Metrics) -> u64 {
    (d.ts << 42u64) | (d.cycles << 21u64) | d.insn_count
}

pub open spec fn unpack(p: u64) -> Metrics {
    Metrics { ts: (p >> 42u64) & 0x1FFFFFu64, cycles: (p >> 21u64) & 0x1FFFFFu64, insn_count: p & 0x1FFFFFu64 }
}

pub proof fn lemma_pack_unpack(d: Metrics)
    requires
        fits_inline(d),
    ensures
        pack(d) >> 63u64 == 0,
        unpack(pack(d)) == d,
        ((pack(d) << 1u64) | 1u64) >> 1u64 == pack(d),
        ((pack(d) << 1u64) | 1u64) % 2 == 1,
{
    let a = d.ts;
    let b = d.cycles;
    let c = d.insn_count;
    assert((((a << 42u64) | (b << 21u64) | c) >> 63u64) == 0) by (bit_vector)
        requires a < 0x200000u64, b < 0x200000u64, c < 0x200000u64;
    assert((((a << 42u64) | (b << 21u64) | c) >> 42u64) & 0x1FFFFFu64 == a) by (bit_vector)
        requires a < 0x200000u64, b < 0x200000u64, c < 0x200000u64;
    assert((((a << 42u64) | (b << 21u64) | c) >> 21u64) & 0x1FFFFFu64 == b) by (bit_vector)
        requires a < 0x200000u64, b < 0x200000u64, c < 0x200000u64;
    assert(((a << 42u64) | (b << 21u64) | c) & 0x1FFFFFu64 == c) by (bit_vector)
        requires a < 0x200000u64, b < 0x200000u64, c < 0x200000u64;
    let p = pack(d);
    assert(((p << 1u64) | 1u64) >> 1u64 == p) by (bit_vector)
        requires p >> 63u64 == 0;
    assert(((p << 1u64) | 1u64) % 2 == 1) by (bit_vector);
}

proof fn lemma_unpack_fits(p: u64)
    ensures
        fits_inline(unpack(p)),
{
    assert((p >> 42u64) & 0x1FFFFFu64 < 0x200000u64) by (bit_vector);
    assert((p >> 21u64) & 0x1FFFFFu64 < 0x200000u64) by (bit_vector);
    assert(p & 0x1FFFFFu64 < 0x200000u64) by (bit_vector);
}

/// A tagged word: either a 63-bit value stored inline, shifted left with the
/// low tag bit set, or a value kept on the heap (the word is then zero).
#[derive(Debug, PartialEq, Eq, Hash)]
pub struct InlineOrPtr<T> {
    bits: u64,
    heap: Option<Box<T>>,
}

/// What an `InlineOrPtr` holds: the inline value or a reference to the heap value.
#[derive(Debug, PartialEq, Eq)]
pub enum InlineOrPtrView<'a, T> {
    Inline(u64),
    Ptr(&'a T),
}

impl<T> InlineOrPtr<T> {
    pub const TAG_MASK: u64 = 1;

    pub closed spec fn wf(&self) -> bool {
        match self.heap {
            None => self.bits % 2 == 1,
            Some(_) => self.bits == 0,
        }
    }

    pub closed spec fn spec_is_inline(&self) -> bool {
        self.heap is None
    }

    /// The inline value.
    pub closed spec fn spec_payload(&self) -> u64 {
        self.bits >> 1u64
    }

    /// The heap value.
    pub closed spec fn spec_target(&self) -> T {
        *self.heap->0
    }

    pub closed spec fn spec_bits(&self) -> u64 {
        self.bits
    }

    pub fn new_heap(val: T) -> (r: Self)
        ensures
            r.wf(),
            !r.spec_is_inline(),
            r.spec_target() == val,
            r.spec_bits() == 0,
    {
        InlineOrPtr { bits: 0, heap: Some(Box::new(val)) }
    }

    pub fn new_inline(val: u64) -> (r: Self)
        requires
            val >> 63u64 == 0,
        ensures
            r.wf(),
            r.spec_is_inline(),
            r.spec_payload() == val,
            r.spec_bits() == (val << 1u64) | 1u64,
    {
        let bits = (val << 1u64) | 1u64;
        assert(bits >> 1u64 == val && bits % 2 == 1) by (bit_vector)
            requires
                val >> 63u64 == 0,
                bits == (val << 1u64) | 1u64,
        ;
        InlineOrPtr { bits, heap: None }
    }

    pub fn is_inline(&self) -> (r: bool)
        requires
            self.wf(),
        ensures
            r == self.spec_is_inline(),
    {
        let b = self.bits;
        assert(b % 2 == 1 ==> b & 1u64 != 0) by (bit_vector);
        assert(b == 0 ==> b & 1u64 == 0) by (bit_vector);
        (self.bits & Self::TAG_MASK) != 0
    }

    /// The tagged word itself.
    pub fn bits(&self) -> (r: u64)
        ensures
            r == self.spec_bits(),
    {
        self.bits
    }

    pub fn as_enum(&self) -> (r: InlineOrPtrView<'_, T>)
        requires
            self.wf(),
        ensures
            match r {
                InlineOrPtrView::Inline(v) => self.spec_is_inline() && v == self.spec_payload(),
                InlineOrPtrView::Ptr(p) => !self.spec_is_inline() && *p == self.spec_target(),
            },
    {
        match &self.heap {
            None => InlineOrPtrView::Inline(self.bits >> 1u64),
            Some(b) => InlineOrPtrView::Ptr(&**b),
        }
    }
}

impl<T: Clone> Clone for InlineOrPtr<T> {
    fn clone(&self) -> (r: Self)
        ensures
            r.spec_bits() == self.spec_bits(),
            r.spec_is_inline() == self.spec_is_inline(),
            !self.spec_is_inline() ==> cloned::<T>(self.spec_target(), r.spec_target()),
    {
        match &self.heap {
            None => InlineOrPtr { bits: self.bits, heap: None },
            Some(b) => {
                let v = (**b).clone();
                InlineOrPtr { bits: self.bits, heap: Some(Box::new(v)) }
            },
        }
    }
}

/// A half-open range of metrics: `start` is included, the end is excluded.
/// When every difference fits in 21 bits the end is stored inline as packed
/// differences; otherwise the end itself is stored on the heap.
#[derive(Debug, PartialEq, Eq, Hash)]
pub struct MetricsRange {
    pub start: Metrics,
    end: InlineOrPtr<Metrics>,
}

/// The representation that `MetricsRange::new(start, &end)` builds.
pub closed spec fn spec_range(start: Metrics, end: Metrics) -> MetricsRange {
    let d = metrics_sub(end, start);
    if fits_inline(d) {
        MetricsRange { start, end: InlineOrPtr { bits: (pack(d) << 1u64) | 1u64, heap: None } }
    } else {
        MetricsRange { start, end: InlineOrPtr { bits: 0, heap: Some(Box::new(end)) } }
    }
}

impl MetricsRange {
    /// The range is well formed: its end lies at or after its start, and the
    /// end is stored inline exactly when all differences fit in 21 bits.
    pub closed spec fn wf(&self) -> bool {
        &&& self.end.wf()
        &&& if self.end.spec_is_inline() {
            sum_fits(self.start, unpack(self.end.spec_payload()))
        } else {
            &&& dominates(self.end.spec_target(), self.start)
            &&& !fits_inline(metrics_sub(self.end.spec_target(), self.start))
        }
    }

    /// The (exclusive) end of the range.
    pub closed spec fn spec_end(&self) -> Metrics {
        if self.end.spec_is_inline() {
            metrics_add(self.start, unpack(self.end.spec_payload()))
        } else {
            self.end.spec_target()
        }
    }

    pub closed spec fn spec_is_inline(&self) -> bool {
        self.end.spec_is_inline()
    }

    /// The (inclusive) start of the range.
    pub closed spec fn spec_start(&self) -> Metrics {
        self.start
    }

    /// The stored packed differences, for an inline end.
    pub closed spec fn spec_payload(&self) -> u64 {
        self.end.spec_payload()
    }

    /// Rebuilding a well-formed range from its start and its stored end (the
    /// packed differences, or the end itself) gives the same range back.
    pub proof fn lemma_rebuild(r: MetricsRange)
        requires
            r.wf(),
        ensures
            r.spec_is_inline() ==> {
                &&& r.spec_payload() >> 63u64 == 0
                &&& sum_fits(r.spec_start(), unpack(r.spec_payload()))
                &&& spec_range(r.spec_start(), metrics_add(r.spec_start(), unpack(r.spec_payload()))) == r
            },
            !r.spec_is_inline() ==> dominates(r.spec_end(), r.spec_start()) && spec_range(
                r.spec_start(),
                r.spec_end(),
            ) == r,
    {
        Self::lemma_wf_is_spec_range(r);
        let bits = r.end.bits;
        assert((bits >> 1u64) >> 63u64 == 0) by (bit_vector);
    }

    pub closed spec fn spec_end_bits(&self) -> u64 {
        self.end.spec_bits()
    }

    pub open spec fn spec_total_time(&self) -> int {
        self.spec_end().ts - self.spec_start().ts
    }

    pub open spec fn spec_total_cycles(&self) -> int {
        self.spec_end().cycles - self.spec_start().cycles
    }

    pub open spec fn spec_total_insn(&self) -> int {
        self.spec_end().insn_count - self.spec_start().insn_count
    }

    /// `self` covers `other` in all three counters.
    pub open spec fn spec_includes(&self, other: &MetricsRange) -> bool {
        &&& dominates(other.spec_start(), self.spec_start())
        &&& dominates(self.spec_end(), other.spec_end())
    }

    /// What `spec_range` builds: a well-formed range with the given bounds,
    /// stored inline exactly when the differences fit in 21 bits.
    pub proof fn lemma_spec_range(start: Metrics, end: Metrics)
        requires
            dominates(end, start),
        ensures
            spec_range(start, end).wf(),
            spec_range(start, end).spec_start() == start,
            spec_range(start, end).spec_end() == end,
            spec_range(start, end).spec_is_inline() == fits_inline(metrics_sub(end, start)),
            spec_range(start, end).spec_is_inline() ==> spec_range(start, end).spec_end_bits() == (
            pack(metrics_sub(end, start)) << 1u64) | 1u64,
    {
        let d = metrics_sub(end, start);
        if fits_inline(d) {
            lemma_pack_unpack(d);
        }
    }

    /// Two well-formed ranges with the same bounds have the same representation.
    pub proof fn lemma_canonical(a: MetricsRange, b: MetricsRange)
        requires
            a.wf(),
            b.wf(),
            a.spec_start() == b.spec_start(),
            a.spec_end() == b.spec_end(),
        ensures
            a == b,
    {
        Self::lemma_wf_is_spec_range(a);
        Self::lemma_wf_is_spec_range(b);
    }

    pub proof fn lemma_wf_is_spec_range(a: MetricsRange)
        requires
            a.wf(),
        ensures
            dominates(a.spec_end(), a.spec_start()),
            a == spec_range(a.spec_start(), a.spec_end()),
    {
        if a.end.spec_is_inline() {
            let p = a.end.spec_payload();
            let d = unpack(p);
            lemma_unpack_fits(p);
            assert(metrics_sub(a.spec_end(), a.start) == d);
            lemma_pack_unpack(d);
            let bits = a.end.bits;
            assert(bits % 2 == 1);
            assert(pack(unpack(bits >> 1u64)) == bits >> 1u64) by (bit_vector);
            assert(((bits >> 1u64) << 1u64) | 1u64 == bits) by (bit_vector)
                requires bits % 2 == 1;
        }
    }

    // start must be at or before end in all metrics
    pub fn new(start: Metrics, end: &Metrics) -> (r: Self)
        requires
            dominates(*end, start),
        ensures
            r == spec_range(start, *end),
            r.wf(),
            r.spec_start() == start,
            r.spec_end() == *end,
            r.spec_is_inline() == fits_inline(metrics_sub(*end, start)),
    {
        proof {
            Self::lemma_spec_range(start, *end);
        }
        let ts_diff = end.ts - start.ts;
        let cycles_diff = end.cycles - start.cycles;
        let insn_diff = end.insn_count - start.insn_count;
        let ghost d = metrics_sub(*end, start);
        assert(ts_diff >> 21u64 == 0 <==> ts_diff < 0x200000) by (bit_vector);
        assert(cycles_diff >> 21u64 == 0 <==> cycles_diff < 0x200000) by (bit_vector);
        assert(insn_diff >> 21u64 == 0 <==> insn_diff < 0x200000) by (bit_vector);
        if (ts_diff >> 21u64) == 0 && (cycles_diff >> 21u64) == 0 && (insn_diff >> 21u64) == 0 {
            let packed_diff = (ts_diff << 42u64) | (cycles_diff << 21u64) | insn_diff;
            proof {
                lemma_pack_unpack(d);
            }
            MetricsRange { start, end: InlineOrPtr::new_inline(packed_diff) }
        } else {
            MetricsRange { start, end: InlineOrPtr::new_heap(*end) }
        }
    }

    /// Rebuilds a range from its start and the packed differences of an
    /// inline end; `None` when the word uses the top bit or the end overflows.
    pub fn from_packed(start: Metrics, packed: u64) -> (r: Option<Self>)
        ensures
            r is Some <==> (packed >> 63u64 == 0 && sum_fits(start, unpack(packed))),
            r matches Some(m) ==> {
                &&& m == spec_range(start, metrics_add(start, unpack(packed)))
                &&& m.wf()
                &&& m.spec_start() == start
                &&& m.spec_end() == metrics_add(start, unpack(packed))
                &&& m.spec_is_inline()
                &&& m.spec_end_bits() == (packed << 1u64) | 1u64
            },
    {
        if (packed >> 63u64) != 0 {
            return None;
        }
        let ts_diff = (packed >> 42u64) & FIELD_MASK;
        let cycles_diff = (packed >> 21u64) & FIELD_MASK;
        let insn_diff = packed & FIELD_MASK;
        if ts_diff > u64::MAX - start.ts || cycles_diff > u64::MAX - start.cycles || insn_diff > u64::MAX
            - start.insn_count {
            return None;
        }
        let r = MetricsRange { start, end: InlineOrPtr::new_inline(packed) };
        proof {
            Self::lemma_wf_is_spec_range(r);
        }
        Some(r)
    }

    /// Rebuilds a range from its start and end; `None` when the end lies
    /// before the start in some counter. The result is stored as `new` stores it.
    pub fn from_end(start: Metrics, end: Metrics) -> (r: Option<Self>)
        ensures
            r is Some <==> dominates(end, start),
            r matches Some(m) ==> m == spec_range(start, end) && m.wf() && m.spec_start() == start
                && m.spec_end() == end,
    {
        if end.ts >= start.ts && end.cycles >= start.cycles && end.insn_count >= start.insn_count {
            Some(MetricsRange::new(start, &end))
        } else {
            None
        }
    }

    /// The (inclusive) start of the range.
    pub fn start(&self) -> (r: Metrics)
        ensures
            r == self.spec_start(),
    {
        self.start
    }

    #[inline]
    pub fn total_time(&self) -> (r: u64)
        requires
            self.wf(),
        ensures
            r == self.spec_total_time(),
    {
        match self.end.as_enum() {
            InlineOrPtrView::Inline(packed_diff) => { (packed_diff >> 42u64) & FIELD_MASK },
            InlineOrPtrView::Ptr(end_metrics) => { end_metrics.ts - self.start.ts },
        }
    }

    #[inline]
    pub fn total_cycles(&self) -> (r: u64)
        requires
            self.wf(),
        ensures
            r == self.spec_total_cycles(),
    {
        match self.end.as_enum() {
            InlineOrPtrView::Inline(packed_diff) => { (packed_diff >> 21u64) & FIELD_MASK },
            InlineOrPtrView::Ptr(end_metrics) => { end_metrics.cycles - self.start.cycles },
        }
    }

    #[inline]
    pub fn total_insn(&self) -> (r: u64)
        requires
            self.wf(),
        ensures
            r == self.spec_total_insn(),
    {
        match self.end.as_enum() {
            InlineOrPtrView::Inline(packed_diff) => { packed_diff & FIELD_MASK },
            InlineOrPtrView::Ptr(end_metrics) => { end_metrics.insn_count - self.start.insn_count },
        }
    }

    #[inline]
    pub fn end(&self) -> (r: Metrics)
        requires
            self.wf(),
        ensures
            r == self.spec_end(),
    {
        let ts_diff = self.total_time();
        let cycles_diff = self.total_cycles();
        let insn_diff = self.total_insn();
        Metrics {
            ts: self.start.ts + ts_diff,
            cycles: self.start.cycles + cycles_diff,
            insn_count: self.start.insn_count + insn_diff,
        }
    }

    #[inline]
    pub fn includes_range(&self, other: &MetricsRange) -> (r: bool)
        requires
            self.wf(),
            other.wf(),
        ensures
            r == self.spec_includes(other),
    {
        let other_end = other.end();
        let self_end = self.end();
        self.start.ts <= other.start.ts && other_end.ts <= self_end.ts && self.start.cycles
            <= other.start.cycles && other_end.cycles <= self_end.cycles && self.start.insn_count
            <= other.start.insn_count && other_end.insn_count <= self_end.insn_count
    }

    /// The stored representation of the end.
    pub fn end_repr(&self) -> (r: &InlineOrPtr<Metrics>)
        ensures
            self.wf() ==> r.wf(),
            r.spec_is_inline() == self.spec_is_inline(),
            r.spec_bits() == self.spec_end_bits(),
            r.spec_payload() == self.spec_payload(),
            self.wf() && !self.spec_is_inline() ==> r.spec_target() == self.spec_end(),
    {
        &self.end
    }
}

/// How a range is shown: `MetricsRange { <start> - <end> }`.
pub open spec fn range_text(start: Metrics, end: Metrics) -> Seq<char> {
    "MetricsRange { "@ + metrics_text(start) + " - "@ + metrics_text(end) + " }"@
}

impl MetricsRange {
    pub fn to_string(&self) -> (r: String)
        requires
            self.wf(),
        ensures
            r@ == range_text(self.spec_start(), self.spec_end()),
    {
        let end = self.end();
        let mut s = String::from_str("MetricsRange { ");
        let a = self.start.to_string();
        s.append(a.as_str());
        s.append(" - ");
        let b = end.to_string();
        s.append(b.as_str());
        s.append(" }");
        s
    }
}

impl Clone for MetricsRange {
    fn clone(&self) -> (r: Self)
        ensures
            r == *self,
    {
        match &self.end.heap {
            None => MetricsRange { start: self.start, end: InlineOrPtr { bits: self.end.bits, heap: None } },
            Some(b) => {
                let e: Metrics = **b;
                MetricsRange { start: self.start, end: InlineOrPtr { bits: self.end.bits, heap: Some(Box::new(e)) } }
            },
        }
    }
}

} // verus!
