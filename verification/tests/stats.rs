use pt_fuser::merge::stats::{BasicStats, NoiseContribution, RawLatencies, ANNOTATION_RAW_LATENCY_CATEGORY, ANNOTATION_STATS_CATEGORY};
use pt_fuser::trace::metrics::{Metrics, MetricsRange};
use pt_fuser::trace::{Frame, SymbolInfo, Trace};

fn frame(a: u64, b: u64) -> Frame {
    Frame::new(
        MetricsRange::new(Metrics::new(a, a, a), &Metrics::new(b, b, b)),
        SymbolInfo { name: "f".to_string(), offset: 0, size: 0 },
    )
}

#[test]
fn raw_latencies_are_labelled_by_trace() {
    let t1 = Trace::new(frame(0, 100), Vec::new());
    let t2 = Trace::new(frame(0, 250), Vec::new());
    let named = vec![("first", &t1), ("second", &t2)];
    let raw = RawLatencies::prepare(&named).unwrap();
    assert_eq!(raw.category(), Some(ANNOTATION_RAW_LATENCY_CATEGORY));
    let a = frame(10, 30);
    let b = frame(5, 45);
    let out = raw.compute(&[(1, &a), (0, &b)]);
    assert_eq!(out, vec![("second".to_string(), 20), ("first".to_string(), 40)]);
}

#[test]
fn basic_stats_latencies() {
    let stats = BasicStats::prepare(&[]).unwrap();
    assert_eq!(stats.category(), Some(ANNOTATION_STATS_CATEGORY));
    let a = frame(10, 30);
    let b = frame(5, 45);
    assert_eq!(stats.latencies(&[(0, &a), (3, &b)]), vec![20, 40]);
}

#[test]
fn noise_contribution_residuals() {
    let t1 = Trace::new(frame(0, 100), Vec::new());
    let t2 = Trace::new(frame(0, 250), Vec::new());
    let named = vec![("first", &t1), ("second", &t2)];
    let nc = NoiseContribution::prepare(&named).unwrap();
    assert_eq!(nc.category(), Some(ANNOTATION_STATS_CATEGORY));
    let a = frame(10, 30);
    let b = frame(5, 45);
    let frames = [(1, &a), (0, &b)];
    assert_eq!(nc.root_latencies(&frames), vec![250, 100]);
    assert_eq!(nc.residual_latencies(&frames), vec![230, 60]);
}
