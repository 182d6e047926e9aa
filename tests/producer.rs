use json_stream::bridge::{Phase, Producer};

#[test]
fn records_flow_while_running() {
    let mut p = Producer::new();
    assert!(p.running());
    assert!(p.offer_record());
    assert!(p.offer_record());
    assert_eq!(p.phase(), Phase::Running);
}

#[test]
fn parse_error_is_handed_over_once_and_nothing_follows() {
    // `{"a": }`: no record, then one error, then nothing more.
    let mut p = Producer::new();
    assert!(p.parse_failed());
    assert_eq!(p.phase(), Phase::Failed);
    assert!(!p.running());
    assert!(!p.offer_record());
    assert!(!p.parse_failed());
    assert_eq!(p.phase(), Phase::Failed);
}

#[test]
fn prefix_records_then_error() {
    let mut p = Producer::new();
    assert!(p.offer_record());
    assert!(p.offer_record());
    assert!(p.parse_failed());
    assert!(!p.offer_record());
}

#[test]
fn consumer_gone_stops_without_error() {
    let mut p = Producer::new();
    assert!(p.offer_record());
    p.consumer_gone();
    assert_eq!(p.phase(), Phase::Abandoned);
    assert!(!p.running());
    assert!(!p.offer_record());
    // The parse aborted by the stop is not reported.
    assert!(!p.parse_failed());
    assert_eq!(p.phase(), Phase::Abandoned);
}
