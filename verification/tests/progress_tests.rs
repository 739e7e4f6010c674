use rdm_core::progress::{ChannelMessage, Notice, NotifierPhase, ProgressLedger, ProgressNotifier};
use rdm_core::types::ProgressEvent;

fn take(notifier: &mut Option<ProgressNotifier>, message: ChannelMessage) -> Notice {
    let (after, notice) = notifier.take().unwrap().on_message(message);
    *notifier = Some(after);
    notice
}

fn event(id: &str, delta: u64, total: Option<u64>) -> ProgressEvent {
    ProgressEvent { segment_id: id.to_string(), bytes_delta: delta, total_bytes: total }
}

#[test]
fn the_ledger_adds_up_the_deltas() {
    let mut ledger = ProgressLedger::new();
    let events = [
        event("b", 10, Some(100)),
        event("a", 5, None),
        event("b", 20, Some(100)),
        event("a", 7, Some(50)),
        event("a", 1, Some(999)),
        event("c", 0, None),
    ];
    let mut sum = 0;
    for e in events {
        assert!(ledger.can_record(&e));
        sum += e.bytes_delta;
        ledger = ledger.record(e);
        assert_eq!(ledger.total_downloaded(), sum);
    }
    let ids: Vec<&str> = ledger.segments().iter().map(|s| s.segment_id.as_str()).collect();
    assert_eq!(ids, vec!["b", "a", "c"]);
    assert_eq!(ledger.segments()[0].bytes_downloaded, 30);
    assert_eq!(ledger.segments()[0].total_bytes, 100);
    assert_eq!(ledger.segments()[1].bytes_downloaded, 13);
    assert_eq!(ledger.segments()[1].total_bytes, 50);
    assert_eq!(ledger.segments()[2].total_bytes, 0);
    assert_eq!(ledger.total_bytes(), 150);
    assert_eq!(ledger.total_downloaded(), 43);
}

#[test]
fn the_ledger_refuses_what_does_not_fit() {
    let ledger = ProgressLedger::new().record(event("a", u64::MAX - 5, Some(u64::MAX)));
    assert!(ledger.can_record(&event("a", 5, None)));
    assert!(!ledger.can_record(&event("a", 6, None)));
    assert!(!ledger.can_record(&event("b", 6, None)));
    assert!(!ledger.can_record(&event("b", 0, Some(1))));
    assert!(ledger.can_record(&event("a", 0, Some(1))));
    assert!(ledger.can_record(&event("b", 5, Some(0))));
}

#[test]
fn snapshots_count_what_is_left() {
    let ledger = ProgressLedger::new()
        .record(event("a", 30, Some(100)))
        .record(event("b", 70, Some(50)))
        .record(event("c", 5, None));
    let snap = ledger.snapshot(false);
    assert!(!snap.done);
    assert_eq!(snap.total_bytes_downloaded, 105);
    assert_eq!(snap.total_bytes, 150);
    assert_eq!(snap.remaining, 45);
    let rows: Vec<(&str, u64, u64, u64)> = snap
        .segments
        .iter()
        .map(|s| (s.segment_id.as_str(), s.bytes_downloaded, s.total_bytes, s.remaining))
        .collect();
    assert_eq!(rows, vec![("a", 30, 100, 70), ("b", 70, 50, 0), ("c", 5, 0, 0)]);
    let empty = ProgressLedger::new().snapshot(true);
    assert!(empty.done);
    assert_eq!((empty.total_bytes_downloaded, empty.total_bytes, empty.remaining), (0, 0, 0));
    assert!(empty.segments.is_empty());
}

#[test]
fn a_clean_run_ends_with_one_completion() {
    let mut notifier = Some(ProgressNotifier::new());
    let mut seen = 0u64;
    for i in 0..4u64 {
        match take(&mut notifier, ChannelMessage::Event(event("r", 32_768, Some(131_072)))) {
            Notice::Progress(snap) => {
                seen += 32_768;
                assert_eq!(snap.total_bytes_downloaded, (i + 1) * 32_768);
                assert!(!snap.done);
            }
            other => panic!("{other:?}"),
        }
    }
    assert_eq!(seen, 131_072);
    match take(&mut notifier, ChannelMessage::Closed) {
        Notice::Complete(snap) => {
            assert!(snap.done);
            assert_eq!(snap.total_bytes_downloaded, 131_072);
            assert_eq!(snap.total_bytes, 131_072);
            assert_eq!(snap.remaining, 0);
        }
        other => panic!("{other:?}"),
    }
    assert_eq!(notifier.as_ref().unwrap().phase, NotifierPhase::Completed);
    assert!(matches!(take(&mut notifier, ChannelMessage::Closed), Notice::Nothing));
    assert!(matches!(
        take(&mut notifier, ChannelMessage::Event(event("r", 1, None))),
        Notice::Nothing
    ));
    assert!(matches!(
        take(&mut notifier, ChannelMessage::Failure("late".to_string())),
        Notice::Nothing
    ));
    assert_eq!(notifier.as_ref().unwrap().ledger.total_downloaded(), 131_072);
}

#[test]
fn an_error_ends_the_run_and_nothing_follows() {
    let mut notifier = Some(ProgressNotifier::new());
    assert!(matches!(
        take(&mut notifier, ChannelMessage::Event(event("r", 10, None))),
        Notice::Progress(_)
    ));
    match take(&mut notifier, ChannelMessage::Failure("max retry exceeded".to_string())) {
        Notice::Error(text) => assert_eq!(text, "max retry exceeded"),
        other => panic!("{other:?}"),
    }
    assert_eq!(notifier.as_ref().unwrap().phase, NotifierPhase::Failed);
    assert!(notifier.as_ref().unwrap().can_take(&ChannelMessage::Event(event("r", u64::MAX, None))));
    assert!(matches!(
        take(&mut notifier, ChannelMessage::Event(event("r", 10, None))),
        Notice::Nothing
    ));
    assert!(matches!(take(&mut notifier, ChannelMessage::Closed), Notice::Nothing));
    assert!(matches!(
        take(&mut notifier, ChannelMessage::Failure("again".to_string())),
        Notice::Nothing
    ));
    assert_eq!(notifier.as_ref().unwrap().ledger.total_downloaded(), 10);
}

#[test]
fn an_empty_run_completes_with_an_empty_snapshot() {
    let mut notifier = Some(ProgressNotifier::new());
    match take(&mut notifier, ChannelMessage::Closed) {
        Notice::Complete(snap) => {
            assert!(snap.done);
            assert!(snap.segments.is_empty());
        }
        other => panic!("{other:?}"),
    }
}
