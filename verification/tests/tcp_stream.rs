use rperf::stream::pacing::{Pacing, PacingAction};
use rperf::stream::tcp::{TcpReceiver, TcpSender, TcpTestDefinition};
use rperf::stream::{DefinitionError, TestDetails, TestStream};

fn definition(length: i64) -> TcpTestDefinition {
    TcpTestDefinition::new(&TestDetails {
        test_id: (0..20).map(|i| Some(i as i64)).collect(),
        length: Some(length),
        bandwidth: 1000,
    })
    .unwrap()
}

#[test]
fn tcp_definition_reads_the_configuration() {
    let d = definition(32768);
    assert_eq!(d.length, 32768);
    assert_eq!(d.bandwidth, 1000);
    assert_eq!(d.test_id, [0, 1, 2, 3, 4, 5, 6, 7, 8, 9, 10, 11, 12, 13, 14, 15]);
    let d = TcpTestDefinition::new(&TestDetails { test_id: vec![], length: None, bandwidth: 0 }).unwrap();
    assert_eq!(d.length, 16);
    assert_eq!(d.test_id, [0u8; 16]);
}

#[test]
fn tcp_definition_refuses_short_lengths() {
    let r = TcpTestDefinition::new(&TestDetails { test_id: vec![], length: Some(15), bandwidth: 0 });
    assert!(matches!(r, Err(DefinitionError::LengthTooShort(15))));
    // a negative length wraps round to a huge one, as a cast does
    let r = TcpTestDefinition::new(&TestDetails { test_id: vec![], length: Some(-1), bandwidth: 0 });
    assert_eq!(r.unwrap().length, usize::MAX);
}

#[test]
fn staged_buffer_layout() {
    let s = TcpSender::new(definition(300), &2);
    assert_eq!(s.staged_buffer.len(), 300);
    assert_eq!(&s.staged_buffer[0..16], &definition(300).test_id[..]);
    assert_eq!(s.staged_buffer[16], 16);
    assert_eq!(s.staged_buffer[256], 0);
    assert_eq!(s.staged_buffer[299], 43);
    assert_eq!(s.get_idx(), 2);
}

#[test]
fn receiver_validates_and_counts() {
    let mut r = TcpReceiver::new(definition(64), &5);
    let s = TcpSender::new(definition(64), &5);
    assert!(r.validates(&s.staged_buffer[..16]));
    assert!(!r.validates(&[9u8; 16]));
    assert_eq!(r.record_read(16, 48), Some(64));
    assert!(r.active);
    assert_eq!(r.record_read(u64::MAX, 1), None);
    assert_eq!(r.record_read(64, 0), Some(64));
    assert!(!r.active);
    let mut r = TcpReceiver::new(definition(64), &5);
    r.stop();
    assert!(!r.active);
    assert_eq!(r.get_idx(), 5);
}

#[test]
fn pacing_spends_the_budget_in_slices() {
    // an interval of 1000 bytes in slices of 250
    let mut p = Pacing::new(1000, 250);
    p.record_sent(100);
    assert_eq!(p.pace(), PacingAction::Continue);
    p.record_sent(200);
    assert_eq!(p.slice_remaining, -50);
    assert_eq!(p.pace(), PacingAction::SleepUntilSliceEnd(1));
    assert_eq!(p.slice_remaining, 250);
    p.record_blocked();
    assert_eq!(p.sends_blocked, 1);
    p.record_sent(700);
    assert_eq!(p.bytes_to_send_remaining, 0);
    assert!(!p.has_budget());
    assert_eq!(p.pace(), PacingAction::SleepUntilIntervalEnd);
    assert_eq!(p.bytes_sent, 1000);
    assert_eq!(p.packets_sent, 3);
    assert_eq!(p.interval_iteration, 1);
}
