use std::str::FromStr;

use pt_fuser::analysis::filter::{filter_traces, trace_kept, Filter, Target};
use pt_fuser::trace::metrics::{Metrics, MetricsRange};
use pt_fuser::trace::{Event, Frame, SymbolInfo, Trace, TraceError};

#[test]
fn parses_all_keys() {
    let f = Filter::from_str("target=^foo$, errors_min=1,errors_max=5 ,duration_min=10,duration_max=+200").unwrap();
    assert_eq!(f.target.as_ref().unwrap().pattern(), "^foo$");
    assert_eq!(f.errors_min, Some(1));
    assert_eq!(f.errors_max, Some(5));
    assert_eq!(f.duration_min, Some(10));
    assert_eq!(f.duration_max, Some(200));
}

#[test]
fn later_parts_override_earlier_ones() {
    let f = Filter::parse("errors_min=1,errors_min=7").unwrap();
    assert_eq!(f.errors_min, Some(7));
    assert!(f.target.is_none());
    assert_eq!(f.duration_max, None);
}

#[test]
fn default_filter_is_empty() {
    let f = Filter::default();
    assert!(f.target.is_none());
    assert_eq!(f.errors_min, None);
    assert_eq!(f.errors_max, None);
    assert_eq!(f.duration_min, None);
    assert_eq!(f.duration_max, None);
}

#[test]
fn parse_errors() {
    assert_eq!(Filter::parse("").unwrap_err(), "Invalid filter part: ");
    assert_eq!(Filter::parse(" errors_min ").unwrap_err(), "Invalid filter part: errors_min");
    assert_eq!(Filter::parse("errors_min=1,").unwrap_err(), "Invalid filter part: ");
    assert_eq!(Filter::parse("speed=3").unwrap_err(), "Unknown filter keyword: speed");
    assert_eq!(Filter::parse("target =x").unwrap_err(), "Unknown filter keyword: target ");
    assert_eq!(
        Filter::parse("errors_min=abc").unwrap_err(),
        "Invalid number for errors_min: invalid digit found in string"
    );
    assert_eq!(
        Filter::parse("errors_max=").unwrap_err(),
        "Invalid number for errors_max: cannot parse integer from empty string"
    );
    assert_eq!(
        Filter::parse("duration_min=-1").unwrap_err(),
        "Invalid number for duration_min: invalid digit found in string"
    );
    assert_eq!(
        Filter::parse("errors_min=4294967296").unwrap_err(),
        "Invalid number for errors_min: number too large to fit in target type"
    );
    assert!(Filter::parse("duration_max=18446744073709551615").is_ok());
    // only the whole part is trimmed, not the value after `=`
    assert_eq!(
        Filter::parse("errors_max= 5").unwrap_err(),
        "Invalid number for errors_max: invalid digit found in string"
    );
    assert!(Filter::parse("target=foo(").unwrap_err().starts_with("Invalid regex: "));
    // the first bad part decides
    assert_eq!(Filter::parse("bad=1,errors_min=x").unwrap_err(), "Unknown filter keyword: bad");
}

#[test]
fn unicode_whitespace_is_trimmed() {
    let f = Filter::parse("\u{3000}errors_min=3\u{a0},\tduration_min=4\n").unwrap();
    assert_eq!(f.errors_min, Some(3));
    assert_eq!(f.duration_min, Some(4));
}

#[test]
fn target_matches_names() {
    let t = Target::new("^do_.*work$").unwrap();
    assert!(t.is_match("do_some_work"));
    assert!(!t.is_match("undo_work"));
    let copy = t.clone();
    assert_eq!(copy.pattern(), "^do_.*work$");
    assert!(copy.is_match("do_work"));
    assert!(Target::new("(").is_err());
}

fn sym(name: &str) -> SymbolInfo {
    SymbolInfo { name: name.to_string(), offset: 0x100, size: 0x10 }
}

fn range(a: u64, b: u64) -> MetricsRange {
    MetricsRange::new(Metrics::new(a, a, a), &Metrics::new(b, b, b))
}

/// A trace of `main` (0..1000) calling `work` twice (100..200, 300..600),
/// with data-collection errors at the given timestamps.
fn trace_with_errors(errors: &[u64]) -> Trace {
    let mut root = Frame::new(range(0, 1000), sym("main"));
    root.add_child(Frame::new(range(100, 200), sym("work"))).unwrap();
    root.add_child(Frame::new(range(300, 600), sym("work"))).unwrap();
    let mut event = Event::new(TraceError::DataCollectionError.id(), "Errors".to_string(), String::new());
    for &ts in errors {
        event.add_occurence(Metrics::new(ts, ts, ts));
    }
    Trace::new(root, vec![event])
}

#[test]
fn durations_of_root_frames() {
    let t = trace_with_errors(&[]);
    assert!(trace_kept(&t, &Filter::parse("duration_min=1000").unwrap()));
    assert!(!trace_kept(&t, &Filter::parse("duration_min=1001").unwrap()));
    assert!(trace_kept(&t, &Filter::parse("duration_max=1000").unwrap()));
    assert!(!trace_kept(&t, &Filter::parse("duration_max=999").unwrap()));
}

#[test]
fn durations_of_target_frames() {
    let t = trace_with_errors(&[]);
    // the two `work` frames last 100 and 300
    assert!(trace_kept(&t, &Filter::parse("target=^work$,duration_min=100").unwrap()));
    assert!(!trace_kept(&t, &Filter::parse("target=^work$,duration_min=101").unwrap()));
    assert!(!trace_kept(&t, &Filter::parse("target=^work$,duration_max=299").unwrap()));
    // no frame matches: nothing to violate
    assert!(trace_kept(&t, &Filter::parse("target=^idle$,duration_min=5000").unwrap()));
}

#[test]
fn errors_are_counted_inside_examined_frames() {
    // errors at 50 and 700 lie outside both `work` frames; 150 and 599 inside
    let t = trace_with_errors(&[50, 150, 599, 700]);
    assert!(trace_kept(&t, &Filter::parse("target=work,errors_min=2,errors_max=2").unwrap()));
    assert!(!trace_kept(&t, &Filter::parse("target=work,errors_min=3").unwrap()));
    assert!(!trace_kept(&t, &Filter::parse("target=work,errors_max=1").unwrap()));
    // the root frame covers all four errors
    assert!(trace_kept(&t, &Filter::parse("errors_min=4,errors_max=4").unwrap()));
    // an end is exclusive and a start inclusive
    let edges = trace_with_errors(&[100, 200]);
    assert!(trace_kept(&edges, &Filter::parse("target=work,errors_max=1,errors_min=1").unwrap()));
}

#[test]
fn filter_traces_keeps_order() {
    let traces = vec![
        trace_with_errors(&[150]),
        trace_with_errors(&[]),
        trace_with_errors(&[150, 400]),
    ];
    let kept = filter_traces(traces, &Filter::parse("target=work,errors_min=1").unwrap());
    assert_eq!(kept.len(), 2);
    assert_eq!(kept[0].get_event(0).unwrap().occurences().len(), 1);
    assert_eq!(kept[1].get_event(0).unwrap().occurences().len(), 2);
    assert!(filter_traces(Vec::new(), &Filter::default()).is_empty());
}

#[test]
fn help_text() {
    assert!(Filter::HELP.starts_with("A filter in the form"));
}
