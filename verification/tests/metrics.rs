use pt_fuser::trace::metrics::{InlineOrPtr, InlineOrPtrView, Metrics, MetricsRange};

#[test]
fn metric_range_inlined() {
    let zero_range = MetricsRange::new(
        Metrics {
            ts: 0,
            cycles: 1,
            insn_count: 2,
        },
        &Metrics {
            ts: 0,
            cycles: 1,
            insn_count: 2,
        },
    );
    let max_inlined = MetricsRange::new(
        Metrics {
            ts: 0,
            cycles: 1,
            insn_count: 2,
        },
        &Metrics {
            ts: 0x1fffff,
            cycles: 0x1ffff + 1,
            insn_count: 0x1ffff + 2,
        },
    );
    assert_eq!(zero_range.total_time(), 0);
    assert_eq!(zero_range.total_cycles(), 0);
    assert_eq!(zero_range.total_insn(), 0);
    assert_eq!(zero_range.end_repr().bits(), InlineOrPtr::<Metrics>::TAG_MASK);
    assert_eq!(max_inlined.total_time(), 0x1fffff);
    assert_eq!(max_inlined.total_cycles(), 0x1ffff);
    assert_eq!(max_inlined.total_insn(), 0x1ffff);
    let inlined_val = (0x1fffff << 42) | (0x1ffff << 21) | 0x1ffff;
    assert_eq!(
        max_inlined.end_repr().bits(),
        InlineOrPtr::<Metrics>::TAG_MASK | (inlined_val << 1)
    );
}

#[test]
fn metric_range_boxed() {
    let min_boxed_end = Metrics {
        ts: 0x1fffff + 1,
        cycles: 0x1ffff + 2,
        insn_count: 0x1ffff + 3,
    };
    let min_boxed = MetricsRange::new(
        Metrics {
            ts: 0,
            cycles: 1,
            insn_count: 2,
        },
        &min_boxed_end,
    );
    assert_eq!(min_boxed.total_time(), 0x1fffff + 1);
    assert_eq!(min_boxed.total_cycles(), 0x1ffff + 1);
    assert_eq!(min_boxed.total_insn(), 0x1ffff + 1);
    assert!(!min_boxed.end_repr().is_inline());
    assert_eq!(
        min_boxed.end_repr().as_enum(),
        InlineOrPtrView::Ptr(&min_boxed_end)
    );
}

#[test]
fn range_end_and_start_round_trip() {
    let start = Metrics::new(10, 20, 30);
    let inline = MetricsRange::new(start, &Metrics::new(15, 27, 39));
    assert!(inline.end_repr().is_inline());
    assert_eq!(inline.start(), start);
    assert_eq!(inline.end(), Metrics::new(15, 27, 39));
    let heap_end = Metrics::new(10 + (1 << 21), 20, 30);
    let boxed = MetricsRange::new(start, &heap_end);
    assert!(!boxed.end_repr().is_inline());
    assert_eq!(boxed.end(), heap_end);
    assert_eq!(boxed.total_time(), 1 << 21);
    assert_eq!(boxed.total_cycles(), 0);
}

#[test]
fn inline_payload_is_the_packed_differences() {
    let r = MetricsRange::new(Metrics::new(1, 2, 3), &Metrics::new(6, 9, 14));
    assert_eq!(r.end_repr().as_enum(), InlineOrPtrView::Inline((5 << 42) | (7 << 21) | 11));
    let direct = InlineOrPtr::<Metrics>::new_inline(42);
    assert!(direct.is_inline());
    assert_eq!(direct.bits(), (42 << 1) | 1);
    let heap = InlineOrPtr::new_heap(Metrics::constant(7));
    assert!(!heap.is_inline());
    assert_eq!(heap.as_enum(), InlineOrPtrView::Ptr(&Metrics::constant(7)));
}

#[test]
fn includes_range_checks_every_counter() {
    let outer = MetricsRange::new(Metrics::new(100, 50, 200), &Metrics::new(200, 350, 1000));
    let inner = MetricsRange::new(Metrics::new(120, 70, 300), &Metrics::new(150, 150, 500));
    assert!(outer.includes_range(&inner));
    assert!(!inner.includes_range(&outer));
    assert!(outer.includes_range(&outer.clone()));
    let cycles_outside = MetricsRange::new(Metrics::new(120, 40, 300), &Metrics::new(150, 150, 500));
    assert!(!outer.includes_range(&cycles_outside));
}

#[test]
fn rebuilding_ranges_from_parts() {
    let start = Metrics::new(1, 2, 3);
    let packed = (5u64 << 42) | (7 << 21) | 11;
    let r = MetricsRange::from_packed(start, packed).unwrap();
    assert_eq!(r, MetricsRange::new(start, &Metrics::new(6, 9, 14)));
    assert!(MetricsRange::from_packed(start, 1 << 63).is_none());
    assert!(MetricsRange::from_packed(Metrics::new(u64::MAX, 0, 0), 1 << 42).is_none());
    assert_eq!(
        MetricsRange::from_end(start, Metrics::new(6, 9, 14)),
        Some(MetricsRange::new(start, &Metrics::new(6, 9, 14)))
    );
    assert!(MetricsRange::from_end(start, Metrics::new(0, 9, 14)).is_none());
}

#[test]
fn metrics_arithmetic() {
    let a = Metrics::new(10, 20, 30);
    let b = Metrics::new(1, 2, 3);
    assert_eq!(a + b, Metrics::new(11, 22, 33));
    assert_eq!(&a + &b, Metrics::new(11, 22, 33));
    assert_eq!(a - b, Metrics::new(9, 18, 27));
    assert_eq!(&a - &b, Metrics::new(9, 18, 27));
    assert_eq!(a * b, Metrics::new(10, 40, 90));
    assert_eq!(&a * 3, Metrics::new(30, 60, 90));
    assert_eq!(a * 2, Metrics::new(20, 40, 60));
    assert_eq!(a / b, Metrics::new(10, 10, 10));
    assert_eq!(&a / &b, Metrics::new(10, 10, 10));
    assert_eq!(a / 10, Metrics::new(1, 2, 3));
    assert_eq!(&a / 10, Metrics::new(1, 2, 3));
    assert_eq!(Metrics::constant(4), Metrics::new(4, 4, 4));
}

#[test]
fn metrics_are_ordered_by_timestamp() {
    let early = Metrics::new(5, 100, 100);
    let late = Metrics::new(6, 0, 0);
    assert!(early < late);
    assert!(late > early);
    assert!(Metrics::new(5, 1, 1) <= Metrics::new(5, 2, 2));
    assert_eq!(
        Metrics::new(5, 1, 1).partial_cmp(&Metrics::new(5, 2, 2)),
        Some(std::cmp::Ordering::Equal)
    );
}

#[test]
fn metrics_text() {
    assert_eq!(Metrics::new(1, 22, 333).to_string(), "(ts: 1, cycles: 22, insn_count: 333)");
    let r = MetricsRange::new(Metrics::new(0, 10, 100), &Metrics::new(5, 15, 105));
    assert_eq!(
        r.to_string(),
        "MetricsRange { (ts: 0, cycles: 10, insn_count: 100) - (ts: 5, cycles: 15, insn_count: 105) }"
    );
}

#[test]
fn stored_end_rebuilds_the_range() {
    for end in [Metrics::new(6, 9, 14), Metrics::new(1 << 22, 9, 14)] {
        let r = MetricsRange::new(Metrics::new(1, 2, 3), &end);
        let rebuilt = match r.end_repr().as_enum() {
            InlineOrPtrView::Inline(packed) => MetricsRange::from_packed(r.start, packed),
            InlineOrPtrView::Ptr(e) => MetricsRange::from_end(r.start, *e),
        };
        assert_eq!(rebuilt, Some(r.clone()));
    }
}
