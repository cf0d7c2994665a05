use pt_fuser::trace::metrics::{Metrics, MetricsRange};
use pt_fuser::trace::{Error, Event, Frame, SymbolInfo, Trace, TraceError};

fn m(ts: u64) -> Metrics {
    Metrics::new(ts, ts * 2, ts * 3)
}

#[test]
fn occurrences_stay_sorted() {
    let mut e = Event::new(7, "Errors".to_string(), "decoder errors".to_string());
    assert!(e.occurences().is_empty());
    e.add_occurence(m(30));
    e.add_occurence(m(10));
    e.add_occurence(m(20));
    let ts: Vec<u64> = e.occurences().iter().map(|x| x.ts).collect();
    assert_eq!(ts, vec![10, 20, 30]);
}

#[test]
fn equal_timestamps_keep_insertion_order() {
    let mut e = Event::new(1, "a".to_string(), "b".to_string());
    e.add_occurence(Metrics::new(5, 1, 1));
    e.add_occurence(Metrics::new(5, 2, 2));
    e.add_occurence(Metrics::new(4, 9, 9));
    assert_eq!(
        e.occurences(),
        &[Metrics::new(4, 9, 9), Metrics::new(5, 1, 1), Metrics::new(5, 2, 2)]
    );
}

#[test]
fn from_occurences_checks_order() {
    let ok = Event::from_occurences(1, "n".to_string(), "d".to_string(), vec![m(1), m(1), m(5)]).unwrap();
    assert_eq!(ok.occurences(), &[m(1), m(1), m(5)]);
    assert_eq!(ok.id, 1);
    assert_eq!(
        Event::from_occurences(1, "n".to_string(), "d".to_string(), vec![m(2), m(1)]),
        Err(Error::NotSorted)
    );
    assert!(Event::from_occurences(1, "n".to_string(), "d".to_string(), Vec::new()).is_ok());
}

#[test]
fn get_event_finds_the_first_with_the_id() {
    let root = Frame::new(
        MetricsRange::new(m(0), &m(100)),
        SymbolInfo { name: "main".to_string(), offset: 0x10, size: 0x10 },
    );
    let events = vec![
        Event::new(3, "three".to_string(), String::new()),
        Event::new(TraceError::DataCollectionError.id(), "Errors".to_string(), String::new()),
        Event::new(3, "again".to_string(), String::new()),
    ];
    let trace = Trace::new(root, events);
    assert_eq!(trace.get_event(3).unwrap().name, "three");
    assert_eq!(trace.get_event(0).unwrap().name, "Errors");
    assert!(trace.get_event(9).is_none());
    assert_eq!(trace.events().len(), 3);
    assert_eq!(trace.root_frame().symbol.name, "main");
    let copy = trace.clone();
    assert_eq!(copy.events().len(), 3);
}

#[test]
fn payload_round_trip() {
    let data: Vec<u8> = b"serialized trace bytes, serialized trace bytes".to_vec();
    let stored = Trace::compress_payload(data.clone(), true);
    assert_ne!(stored, data);
    assert_eq!(&stored[..2], &[0x1f, 0x8b]);
    assert_eq!(Trace::decompress_payload(&stored, true), Some(data.clone()));
    let plain = Trace::compress_payload(data.clone(), false);
    assert_eq!(plain, data);
    assert_eq!(Trace::decompress_payload(&plain, false), Some(data.clone()));
    assert_eq!(Trace::decompress_payload(b"not gzip at all", true), None);
}
