use pt_fuser::trace::metrics::{Metrics, MetricsRange};
use pt_fuser::trace::{Chunk, Error, Frame, SymbolInfo};

fn sample_range() -> MetricsRange {
    MetricsRange::new(Metrics::new(100, 50, 200), &Metrics::new(200, 350, 1000))
}

fn inner_range1() -> MetricsRange {
    MetricsRange::new(Metrics::new(120, 70, 300), &Metrics::new(150, 150, 500))
}

fn inner_range2() -> MetricsRange {
    MetricsRange::new(Metrics::new(160, 200, 600), &Metrics::new(190, 300, 900))
}

fn test_symbol() -> SymbolInfo {
    SymbolInfo {
        name: "test".to_string(),
        offset: 0x1000,
        size: 0x100,
    }
}

const ONE: Metrics = Metrics {
    ts: 1,
    cycles: 1,
    insn_count: 1,
};

// A range's end is exclusive, so its totals are the plain differences of its
// bounds: 200 - 100, 350 - 50 and 1000 - 200.
#[test]
fn sample_range_totals() {
    let frame = Chunk::Frame(Frame::new(sample_range(), test_symbol()));
    assert_eq!(sample_range().total_time(), 100);
    assert_eq!(sample_range().total_cycles(), 300);
    assert_eq!(sample_range().total_insn(), 800);
    assert_eq!(frame.total_time(), sample_range().total_time());
    assert_eq!(frame.total_cycles(), sample_range().total_cycles());
    assert_eq!(frame.total_insn(), sample_range().total_insn());
}

#[test]
fn empty_frame_invariant() {
    let frame = Frame::new(sample_range(), test_symbol());
    assert!(frame.check_invariant());
}

#[test]
fn child_frame_invariant() {
    let mut frame = Frame::new(sample_range(), test_symbol());
    let child1 = Frame::new(inner_range1(), test_symbol());
    let child2 = Frame::new(inner_range2(), test_symbol());
    frame.add_child(child1).unwrap();
    frame.add_child(child2).unwrap();
    assert!(frame.check_invariant());
    assert_eq!(frame.chunks().len(), 5);
}

#[test]
fn child_overlaps_parent() {
    let mut outer = Frame::new(sample_range(), test_symbol());
    let inner = Frame::new(sample_range(), test_symbol());
    outer.add_child(inner).unwrap();
    assert_eq!(outer.chunks().len(), 1);
    assert!(outer.check_invariant());
}

#[test]
fn child_overlapping_complex() {
    let mut outer = Frame::new(sample_range(), test_symbol());
    let middle = Frame::new(inner_range1(), test_symbol());
    outer.add_child(middle).unwrap();
    let beginning = Frame::new(
        MetricsRange::new(sample_range().start, &(inner_range1().start - ONE - ONE)),
        test_symbol(),
    );
    outer.add_child(beginning).unwrap();
    let end = Frame::new(
        MetricsRange::new(inner_range1().end() + ONE + ONE, &sample_range().end()),
        test_symbol(),
    );
    outer.add_child(end).unwrap();
    assert_eq!(outer.chunks().len(), 5);
    assert!(outer.check_invariant());
    assert!(matches!(&outer.chunks()[0], Chunk::Frame(_)));
    assert!(matches!(&outer.chunks()[1], Chunk::Straightline(_)));
    assert!(matches!(&outer.chunks()[2], Chunk::Frame(_)));
    assert!(matches!(&outer.chunks()[3], Chunk::Straightline(_)));
    assert!(matches!(&outer.chunks()[4], Chunk::Frame(_)));
}

#[test]
fn add_invalid_child() {
    let mut frame = Frame::new(sample_range(), test_symbol());
    let too_early = Frame::new(
        MetricsRange::new(sample_range().start - ONE, &inner_range1().end()),
        test_symbol(),
    );
    let too_late = Frame::new(
        MetricsRange::new(inner_range2().start, &(sample_range().end() + ONE)),
        test_symbol(),
    );
    let early_range = too_early.metrics.clone();
    assert_eq!(frame.add_child(too_early), Err(Error::InvalidRange(early_range)));
    assert!(frame.add_child(too_late).is_err());
    assert_eq!(frame.chunks().len(), 1);
}

#[test]
fn child_splits_the_covering_stretch() {
    let mut frame = Frame::new(sample_range(), test_symbol());
    frame.add_child(Frame::new(inner_range1(), test_symbol())).unwrap();
    let chunks = frame.chunks();
    assert_eq!(chunks.len(), 3);
    match &chunks[0] {
        Chunk::Straightline(s) => {
            assert_eq!(s.metrics, MetricsRange::new(Metrics::new(100, 50, 200), &Metrics::new(120, 70, 300)))
        }
        Chunk::Frame(_) => panic!("expected a straight-line stretch"),
    }
    match &chunks[2] {
        Chunk::Straightline(s) => {
            assert_eq!(s.metrics, MetricsRange::new(Metrics::new(150, 150, 500), &Metrics::new(200, 350, 1000)))
        }
        Chunk::Frame(_) => panic!("expected a straight-line stretch"),
    }
    // a child that only fits where a frame already stands is refused
    assert!(frame.add_child(Frame::new(inner_range1(), test_symbol())).is_err());
}

#[test]
fn child_sharing_a_timestamp_keeps_the_invariant() {
    // the child starts at the stretch's timestamp but later in cycles and
    // instructions: the stretch before it keeps those counts
    let mut frame = Frame::new(sample_range(), test_symbol());
    let child = MetricsRange::new(Metrics::new(100, 60, 210), &Metrics::new(200, 350, 1000));
    frame.add_child(Frame::new(child, test_symbol())).unwrap();
    assert!(frame.check_invariant());
    let chunks = frame.chunks();
    assert_eq!(chunks.len(), 2);
    match &chunks[0] {
        Chunk::Straightline(s) => {
            assert_eq!(s.metrics, MetricsRange::new(Metrics::new(100, 50, 200), &Metrics::new(100, 60, 210)));
            assert_eq!(s.metrics.total_time(), 0);
            assert_eq!(s.metrics.total_cycles(), 10);
            assert_eq!(s.metrics.total_insn(), 10);
        }
        Chunk::Frame(_) => panic!("expected a straight-line stretch"),
    }
    assert!(matches!(&chunks[1], Chunk::Frame(_)));
}

#[test]
fn cloned_frame_keeps_its_chunks() {
    let mut frame = Frame::new(sample_range(), test_symbol());
    frame.add_child(Frame::new(inner_range1(), test_symbol())).unwrap();
    let copy = frame.clone();
    assert_eq!(copy, frame);
    assert_eq!(copy.chunks().len(), 3);
}

#[test]
fn preorder_visits_frames_in_call_order() {
    let mut child = Frame::new(inner_range1(), SymbolInfo { name: "child".to_string(), offset: 0, size: 0 });
    child
        .add_child(Frame::new(
            MetricsRange::new(Metrics::new(130, 80, 350), &Metrics::new(140, 90, 400)),
            SymbolInfo { name: "grandchild".to_string(), offset: 0, size: 0 },
        ))
        .unwrap();
    let mut root = Frame::new(sample_range(), test_symbol());
    root.add_child(child).unwrap();
    root.add_child(Frame::new(inner_range2(), SymbolInfo { name: "second".to_string(), offset: 0, size: 0 }))
        .unwrap();
    let names: Vec<&str> = root.preorder().iter().map(|f| f.symbol.name.as_str()).collect();
    assert_eq!(names, vec!["test", "child", "grandchild", "second"]);
}

#[test]
fn symbol_contains_and_text() {
    let sym = test_symbol();
    assert!(sym.contains(0x1000));
    assert!(sym.contains(0x10ff));
    assert!(!sym.contains(0x1100));
    assert!(!sym.contains(0xfff));
    let top = SymbolInfo { name: "top".to_string(), offset: u64::MAX - 1, size: 1 };
    assert!(top.contains(u64::MAX - 1));
    assert!(!top.contains(u64::MAX));
    assert_eq!(sym.to_string(), "[0x1000 - 0x1100] test");
}

#[test]
fn error_text() {
    let range = MetricsRange::new(Metrics::new(1, 2, 3), &Metrics::new(4, 5, 6));
    assert_eq!(
        Error::InvalidRange(range).to_string(),
        "Invalid range: MetricsRange { (ts: 1, cycles: 2, insn_count: 3) - (ts: 4, cycles: 5, insn_count: 6) }"
    );
    assert_eq!(Error::NotSorted.to_string(), "Occurences are not sorted by timestamp");
}
