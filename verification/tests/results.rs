use rperf::client::{on_client_stream_finished, on_server_stream_finished, ClientCompletion};
use rperf::protocol::results::{
    prepare_test_results, AnyTestResults,
    interval_result_kind_from_fields, ClientDoneResult, ClientFailedResult, IntegerField,
    IntervalResultKind, ResultError, ServerDoneResult, ServerFailedResult, TcpReceiveResult,
    TcpSendResult, TcpTestResults, TestResults, TextField, UdpReceiveResult, UdpSendResult,
    UdpTestResults,
};

fn text(s: &str) -> TextField {
    TextField::Text(s.to_string())
}

#[test]
fn completion_reports() {
    let r = ClientDoneResult { stream_idx: 3 };
    assert_eq!(r.kind(), IntervalResultKind::ClientDone);
    assert_eq!(r.get_stream_idx(), 3);
    assert_eq!(r.to_string(true), "----------\nEnd of stream from client | stream: 3");
    let r = ServerDoneResult { stream_idx: 255 };
    assert_eq!(r.kind(), IntervalResultKind::ServerDone);
    assert_eq!(r.to_string(false), "----------\nEnd of stream from server | stream: 255");
    let r = ClientFailedResult { stream_idx: 0 };
    assert_eq!(r.kind(), IntervalResultKind::ClientFailed);
    assert_eq!(r.to_string(false), "----------\nFailure in client stream | stream: 0");
    let r = ServerFailedResult { stream_idx: 42 };
    assert_eq!(r.kind(), IntervalResultKind::ServerFailed);
    assert_eq!(r.get_stream_idx(), 42);
    assert_eq!(r.to_string(true), "----------\nFailure in server stream | stream: 42");
}

#[test]
fn interval_result_kinds() {
    assert_eq!(interval_result_kind_from_fields(&text("tcp"), &text("receive")), Ok(IntervalResultKind::TcpReceive));
    assert_eq!(interval_result_kind_from_fields(&text("tcp"), &text("send")), Ok(IntervalResultKind::TcpSend));
    assert_eq!(interval_result_kind_from_fields(&text("udp"), &text("receive")), Ok(IntervalResultKind::UdpReceive));
    assert_eq!(interval_result_kind_from_fields(&text("udp"), &text("send")), Ok(IntervalResultKind::UdpSend));
    assert_eq!(interval_result_kind_from_fields(&TextField::Absent, &text("send")), Err(ResultError::NoFamily));
    assert_eq!(interval_result_kind_from_fields(&TextField::NotText, &text("send")), Err(ResultError::FamilyNotText));
    assert_eq!(interval_result_kind_from_fields(&text("sctp"), &text("send")), Err(ResultError::UnsupportedFamily("sctp".to_string())));
    assert_eq!(interval_result_kind_from_fields(&text("udp"), &TextField::Absent), Err(ResultError::NoKind));
    assert_eq!(interval_result_kind_from_fields(&text("udp"), &TextField::NotText), Err(ResultError::KindNotText));
    assert_eq!(interval_result_kind_from_fields(&text("udp"), &text("done")), Err(ResultError::UnsupportedKind("done".to_string())));
}

fn tcp_send(idx: u8, bytes: u64) -> TcpSendResult {
    TcpSendResult { timestamp_bits: 0, stream_idx: idx, duration_bits: 1.0f32.to_bits(), bytes_sent: bytes }
}

fn tcp_receive(idx: u8, bytes: u64) -> TcpReceiveResult {
    TcpReceiveResult { timestamp_bits: 0, stream_idx: idx, duration_bits: 1.0f32.to_bits(), bytes_received: bytes }
}

#[test]
fn tcp_bookkeeping() {
    let mut tr = TcpTestResults::new();
    tr.prepare_index(&0);
    tr.prepare_index(&1);
    assert_eq!(tr.stream_count(), 2);
    assert_eq!(tr.count_in_progress_streams(), 2);
    assert_eq!(tr.count_in_progress_streams_server(), 2);
    assert!(!tr.is_success());
    tr.mark_stream_done(&0, true);
    assert!(!tr.is_pending(0));
    assert_eq!(tr.count_in_progress_streams(), 1);
    tr.mark_stream_done(&1, false);
    assert!(tr.is_failed(1));
    assert_eq!(tr.count_in_progress_streams(), 0);
    assert!(!tr.is_success());
    tr.mark_stream_done_server(&0);
    assert_eq!(tr.count_in_progress_streams_server(), 1);
}

#[test]
fn all_streams_done_is_success() {
    let mut tr = UdpTestResults::new();
    for i in 0..3u8 {
        tr.prepare_index(&i);
    }
    for i in 0..3u8 {
        tr.mark_stream_done(&i, true);
    }
    assert!(tr.is_success());
}

#[test]
fn pending_count_keeps_eight_bits() {
    let mut tr = TcpTestResults::new();
    for i in 0..=255u8 {
        tr.prepare_index(&i);
    }
    assert_eq!(tr.count_in_progress_streams(), 0);
    tr.mark_stream_done(&7, true);
    assert_eq!(tr.count_in_progress_streams(), 255);
}

#[test]
fn tcp_routing() {
    let mut tr = TcpTestResults::new();
    tr.prepare_index(&1);
    assert_eq!(tr.route_update(&text("tcp"), &IntegerField::Integer(1), &text("send")), Ok((1, IntervalResultKind::TcpSend)));
    assert_eq!(tr.route_update(&text("tcp"), &IntegerField::Integer(257), &text("receive")), Ok((1, IntervalResultKind::TcpReceive)));
    assert_eq!(tr.route_update(&TextField::Absent, &IntegerField::Integer(1), &text("send")), Err(ResultError::NoFamily));
    assert_eq!(tr.route_update(&TextField::NotText, &IntegerField::Integer(1), &text("send")), Err(ResultError::FamilyNotText));
    assert_eq!(tr.route_update(&text("udp"), &IntegerField::Integer(1), &text("send")), Err(ResultError::UnsupportedFamily("udp".to_string())));
    assert_eq!(tr.route_update(&text("tcp"), &IntegerField::Absent, &text("send")), Err(ResultError::NoStreamIndex));
    assert_eq!(tr.route_update(&text("tcp"), &IntegerField::NotInteger, &text("send")), Err(ResultError::StreamIndexNotInteger));
    assert_eq!(tr.route_update(&text("tcp"), &IntegerField::Integer(2), &text("send")), Err(ResultError::UnknownStreamIndex(2)));
    assert_eq!(tr.route_update(&text("tcp"), &IntegerField::Integer(1), &TextField::Absent), Err(ResultError::NoKind));
    assert_eq!(tr.route_update(&text("tcp"), &IntegerField::Integer(1), &TextField::NotText), Err(ResultError::KindNotText));
    assert_eq!(tr.route_update(&text("tcp"), &IntegerField::Integer(1), &text("done")), Err(ResultError::UnsupportedKind("done".to_string())));
    tr.mark_stream_done(&1, true);
}

#[test]
fn tcp_totals_leave_out_the_first_intervals() {
    let mut tr = TcpTestResults::new();
    tr.prepare_index(&0);
    tr.prepare_index(&1);
    tr.record_send(0, tcp_send(0, 100));
    tr.record_send(0, tcp_send(0, 200));
    tr.record_send(1, tcp_send(1, 1000));
    tr.record_receive(1, tcp_receive(1, 5));
    tr.record_receive(1, tcp_receive(1, 7));
    let s = tr.summary(0).unwrap();
    assert_eq!(s.bytes_sent, 1300);
    assert_eq!(s.bytes_received, 12);
    let s = tr.summary(1).unwrap();
    assert_eq!(s.bytes_sent, 200);
    assert_eq!(s.bytes_received, 7);
    let s = tr.stream(0).unwrap().summary(1).unwrap();
    assert_eq!(s.bytes_sent, 200);
    assert_eq!(tr.stream(0).unwrap().send_results.len(), 2);
    assert!(tr.stream(9).is_none());
}

fn udp_receive(packets: u64, unbroken: u64, jitter: Option<f32>) -> UdpReceiveResult {
    UdpReceiveResult {
        timestamp_bits: 0,
        stream_idx: 0,
        duration_bits: 1.0f32.to_bits(),
        bytes_received: packets * 100,
        packets_received: packets,
        packets_lost: 0,
        packets_out_of_order: 1,
        packets_duplicated: 2,
        unbroken_sequence: unbroken,
        jitter_bits: jitter.map(|j| j.to_bits()),
    }
}

#[test]
fn udp_totals() {
    let mut tr = UdpTestResults::new();
    tr.prepare_index(&0);
    tr.record_send(0, UdpSendResult { timestamp_bits: 0, stream_idx: 0, duration_bits: 0, bytes_sent: 1000, packets_sent: 10 });
    tr.record_send(0, UdpSendResult { timestamp_bits: 0, stream_idx: 0, duration_bits: 0, bytes_sent: 500, packets_sent: 5 });
    tr.record_receive(0, udp_receive(9, 4, Some(0.5)));
    tr.record_receive(0, udp_receive(5, 3, None));
    let s = tr.summary(0).unwrap();
    assert_eq!(s.bytes_sent, 1500);
    assert_eq!(s.packets_sent, 15);
    assert_eq!(s.bytes_received, 1400);
    assert_eq!(s.packets_received, 14);
    assert_eq!(s.packets_out_of_order, 2);
    assert_eq!(s.packets_duplicated, 4);
    assert_eq!(s.unbroken_sequence_count, 4);
    assert!(s.jitter_calculated);
    assert_eq!(s.packets_lost(), 1);
    assert_eq!(s.framed_packet_size(), Some(100));
    let s = tr.summary(1).unwrap();
    assert_eq!(s.packets_sent, 5);
    assert!(!s.jitter_calculated);
    let s = tr.summary(2).unwrap();
    assert_eq!(s.framed_packet_size(), None);
}

#[test]
fn client_stops_once_both_sides_are_done() {
    let mut tr = TcpTestResults::new();
    tr.prepare_index(&0);
    tr.prepare_index(&1);
    assert_eq!(on_client_stream_finished(&mut tr, 0, true), ClientCompletion::Continue);
    // the server still owes both streams: wait for it
    assert_eq!(on_client_stream_finished(&mut tr, 1, true), ClientCompletion::StartKillTimer);
    assert!(!on_server_stream_finished(&mut tr, 0, false));
    assert!(on_server_stream_finished(&mut tr, 1, false));
    assert!(tr.is_success());
}

#[test]
fn server_failure_fails_the_test() {
    let mut tr = UdpTestResults::new();
    tr.prepare_index(&0);
    assert!(on_server_stream_finished(&mut tr, 256, true));
    assert!(!tr.is_success());
    assert!(tr.is_failed(0));
    let mut tr = UdpTestResults::new();
    tr.prepare_index(&0);
    tr.mark_stream_done_server(&0);
    assert_eq!(on_client_stream_finished(&mut tr, 0, false), ClientCompletion::Kill);
    assert!(!tr.is_success());
}

#[test]
fn totals_that_overflow_give_none() {
    let mut tr = TcpTestResults::new();
    tr.prepare_index(&0);
    tr.prepare_index(&1);
    tr.record_send(0, tcp_send(0, u64::MAX));
    tr.record_send(1, tcp_send(1, 1));
    assert!(tr.stream(0).unwrap().summary(0).is_some());
    assert!(tr.summary(0).is_none());
    // leaving out the first interval leaves nothing to add up
    assert_eq!(tr.summary(1).unwrap().bytes_sent, 0);
    let mut tr = UdpTestResults::new();
    tr.prepare_index(&0);
    let mut big = udp_receive(1, 0, None);
    big.packets_received = u64::MAX;
    tr.record_receive(0, big);
    tr.record_receive(0, udp_receive(1, 0, None));
    assert!(tr.stream(0).unwrap().summary(0).is_none());
    assert!(tr.summary(0).is_none());
}

#[test]
fn prepared_results_wait_for_every_stream() {
    let mut tr = prepare_test_results(true, 3);
    assert!(matches!(tr, AnyTestResults::Udp(_)));
    assert_eq!(tr.stream_count(), 3);
    assert_eq!(tr.count_in_progress_streams(), 3);
    assert_eq!(tr.count_in_progress_streams_server(), 3);
    assert!(!tr.is_success());
    assert_eq!(on_client_stream_finished(&mut tr, 0, true), ClientCompletion::Continue);
    assert_eq!(on_client_stream_finished(&mut tr, 1, true), ClientCompletion::Continue);
    assert_eq!(on_client_stream_finished(&mut tr, 2, true), ClientCompletion::StartKillTimer);
    assert!(tr.is_success());
    let tr = prepare_test_results(false, 0);
    assert!(matches!(tr, AnyTestResults::Tcp(_)));
    assert_eq!(tr.stream_count(), 0);
    assert!(tr.is_success());
}

#[test]
fn prepared_streams_not_reported_stay_in_progress() {
    let mut tr = TcpTestResults::new();
    for i in [4u8, 7, 9, 7] {
        tr.prepare_index(&i);
    }
    assert_eq!(tr.count_in_progress_streams(), 3);
    tr.mark_stream_done(&7, true);
    tr.mark_stream_done(&2, true);
    assert_eq!(tr.count_in_progress_streams(), 2);
    assert!(!tr.is_success());
    tr.mark_stream_done(&4, true);
    tr.mark_stream_done(&9, true);
    assert_eq!(tr.count_in_progress_streams(), 0);
    assert!(tr.is_success());
}

#[test]
fn one_failure_fails_the_test_for_good() {
    let mut tr = UdpTestResults::new();
    tr.prepare_index(&0);
    tr.prepare_index(&1);
    tr.mark_stream_done(&0, false);
    tr.mark_stream_done(&1, true);
    assert_eq!(tr.count_in_progress_streams(), 0);
    assert!(!tr.is_success());
    // reporting the stream again, successfully, and preparing it anew change nothing of that
    tr.mark_stream_done(&0, true);
    tr.prepare_index(&0);
    tr.mark_stream_done(&0, true);
    tr.mark_stream_done_server(&0);
    assert!(tr.is_failed(0));
    assert!(!tr.is_success());
}

#[test]
fn filing_results_leaves_the_bookkeeping() {
    let mut tr = TcpTestResults::new();
    tr.prepare_index(&0);
    tr.record_receive(0, tcp_receive(0, 10));
    assert_eq!(tr.count_in_progress_streams(), 1);
    assert!(tr.is_pending(0));
    assert!(!tr.is_failed(0));
    tr.mark_stream_done(&0, true);
    tr.record_receive(0, tcp_receive(0, 20));
    assert!(tr.is_success());
}
