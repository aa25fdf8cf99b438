use rperf::stream::udp::{
    process_jitter, JitterUpdate, PacketOutcome, UdpReceiver, UdpReceiverIntervalHistory, UdpSender, UdpTestDefinition,
};
use rperf::stream::{DefinitionError, TestDetails, TestStream};

fn details(length: Option<i64>) -> TestDetails {
    TestDetails {
        test_id: (0..16).map(|i| Some(100 + i as i64)).collect(),
        length,
        bandwidth: 125000,
    }
}

fn definition() -> UdpTestDefinition {
    UdpTestDefinition::new(&details(Some(64))).unwrap()
}

#[test]
fn udp_definition_reads_the_configuration() {
    let d = definition();
    assert_eq!(d.length, 64);
    assert_eq!(d.bandwidth, 125000);
    assert_eq!(d.test_id[0], 100);
    assert_eq!(d.test_id[15], 115);
}

#[test]
fn definition_defaults_and_truncations() {
    let d = UdpTestDefinition::new(&TestDetails { test_id: vec![Some(257), None, Some(-1)], length: None, bandwidth: 0 }).unwrap();
    assert_eq!(d.length, 36);
    assert_eq!(d.test_id[0], 1);
    assert_eq!(d.test_id[1], 0);
    assert_eq!(d.test_id[2], 255);
    assert_eq!(d.test_id[3], 0);
    // only the low sixteen bits of the length count
    let d = UdpTestDefinition::new(&details(Some(65536 + 40))).unwrap();
    assert_eq!(d.length, 40);
}

#[test]
fn udp_definition_refuses_short_lengths() {
    assert!(matches!(UdpTestDefinition::new(&details(Some(35))), Err(DefinitionError::LengthTooShort(35))));
    assert!(matches!(UdpTestDefinition::new(&details(Some(65536))), Err(DefinitionError::LengthTooShort(0))));
}

#[test]
fn staged_packet_layout() {
    let s = UdpSender::new(definition(), &3);
    assert_eq!(s.staged_packet.len(), 64);
    assert_eq!(&s.staged_packet[0..16], &definition().test_id[..]);
    assert!(s.staged_packet[16..36].iter().all(|b| *b == 0));
    assert_eq!(s.staged_packet[36], 36);
    assert_eq!(s.staged_packet[63], 63);
    assert_eq!(s.get_idx(), 3);
    assert_eq!(s.end_of_test_signal(), definition().test_id.to_vec());
}

#[test]
fn packet_header_is_big_endian() {
    let mut s = UdpSender::new(definition(), &0);
    s.next_packet_id = 0x0102030405060708;
    s.prepare_packet(0x1112131415161718, 0x21222324);
    assert_eq!(&s.staged_packet[16..24], &[1, 2, 3, 4, 5, 6, 7, 8]);
    assert_eq!(&s.staged_packet[24..32], &[0x11, 0x12, 0x13, 0x14, 0x15, 0x16, 0x17, 0x18]);
    assert_eq!(&s.staged_packet[32..36], &[0x21, 0x22, 0x23, 0x24]);
    assert_eq!(s.staged_packet[36], 36);
    s.packet_sent();
    assert_eq!(s.next_packet_id, 0x0102030405060709);
}

fn send(s: &mut UdpSender, secs: u64, nanos: u32) -> Vec<u8> {
    s.prepare_packet(secs, nanos);
    let p = s.staged_packet.clone();
    s.packet_sent();
    p
}

#[test]
fn receiver_reads_what_the_sender_wrote() {
    let mut s = UdpSender::new(definition(), &1);
    let mut r = UdpReceiver::new(definition(), &1);
    let mut h = UdpReceiverIntervalHistory::new();
    let p = send(&mut s, 1_700_000_000, 500);
    let o = r.process_packet(&p, &mut h, 1_700_000_001, 500);
    assert_eq!(o, PacketOutcome::Counted { in_order: true, jitter: JitterUpdate::Baseline, new_longest: true });
    assert_eq!(h.packets_received, 1);
    assert_eq!(h.unbroken_sequence, 1);
    assert_eq!(h.longest_unbroken_sequence, 1);
    assert_eq!(h.previous_time_delta_nanoseconds, 1_000_000_000);
    assert_eq!(r.next_packet_id, 1);

    // the second packet calibrates the jitter with the change in transit time
    let p = send(&mut s, 1_700_000_000, 600);
    let o = r.process_packet(&p, &mut h, 1_700_000_001, 1_000_600);
    assert_eq!(o, PacketOutcome::Counted { in_order: true, jitter: JitterUpdate::Calibrate { delta_nanoseconds: 1_000_000 }, new_longest: true });
    assert_eq!(h.previous_time_delta_nanoseconds, 1_001_000_000);

    // later packets smooth it
    let p = send(&mut s, 1_700_000_002, 0);
    let o = r.process_packet(&p, &mut h, 1_700_000_003, 0);
    assert_eq!(o, PacketOutcome::Counted { in_order: true, jitter: JitterUpdate::Smooth { delta_nanoseconds: 1_000_000 }, new_longest: true });
    assert_eq!(h.unbroken_sequence, 3);
    assert_eq!(h.packets_lost, 0);
    assert_eq!(h.packets_out_of_order, 0);
    assert_eq!(h.packets_duplicated, 0);
}

#[test]
fn gaps_late_arrivals_and_duplicates() {
    let mut s = UdpSender::new(definition(), &1);
    let mut r = UdpReceiver::new(definition(), &1);
    let mut h = UdpReceiverIntervalHistory::new();
    let p0 = send(&mut s, 10, 0);
    let p1 = send(&mut s, 10, 1);
    let p2 = send(&mut s, 10, 2);
    assert!(matches!(r.process_packet(&p0, &mut h, 11, 0), PacketOutcome::Counted { in_order: true, .. }));
    // packet 2 before packet 1: one packet counted lost, the sequence breaks
    let o = r.process_packet(&p2, &mut h, 11, 0);
    assert_eq!(o, PacketOutcome::Counted { in_order: false, jitter: JitterUpdate::SequenceBroken, new_longest: false });
    assert_eq!(h.packets_lost, 1);
    assert_eq!(h.unbroken_sequence, 0);
    assert_eq!(r.next_packet_id, 3);
    // packet 1 arrives late: the loss is taken back and counted out of order
    let o = r.process_packet(&p1, &mut h, 11, 0);
    assert!(matches!(o, PacketOutcome::Counted { in_order: false, .. }));
    assert_eq!(h.packets_lost, 0);
    assert_eq!(h.packets_out_of_order, 1);
    // packet 1 again: a duplicate
    r.process_packet(&p1, &mut h, 11, 0);
    assert_eq!(h.packets_duplicated, 1);
    assert_eq!(h.packets_received, 4);
    assert_eq!(h.longest_unbroken_sequence, 1);
}

#[test]
fn unrelated_and_malformed_datagrams() {
    let mut r = UdpReceiver::new(definition(), &1);
    let mut h = UdpReceiverIntervalHistory::new();
    let mut other = UdpSender::new(UdpTestDefinition::new(&TestDetails { test_id: vec![], length: Some(64), bandwidth: 0 }).unwrap(), &1);
    let p = send(&mut other, 10, 0);
    assert_eq!(r.process_packet(&p, &mut h, 11, 0), PacketOutcome::Unrelated);
    assert_eq!(h, UdpReceiverIntervalHistory::new());
    let buffer = vec![0u8; 64];
    assert_eq!(r.process_datagram(&buffer, 20, &mut h, 11, 0), PacketOutcome::Malformed);
    assert!(r.active);
}

#[test]
fn end_of_test_signal_stops_the_receiver() {
    let s = UdpSender::new(definition(), &1);
    let mut r = UdpReceiver::new(definition(), &1);
    let mut h = UdpReceiverIntervalHistory::new();
    let mut buffer = vec![0u8; 64];
    buffer[..16].copy_from_slice(&s.end_of_test_signal());
    assert_eq!(r.process_datagram(&buffer, 16, &mut h, 11, 0), PacketOutcome::EndOfTest);
    assert!(!r.active);
}

#[test]
fn impossible_timestamps_are_reported() {
    let mut s = UdpSender::new(definition(), &1);
    let mut r = UdpReceiver::new(definition(), &1);
    let mut h = UdpReceiverIntervalHistory::new();
    let p = send(&mut s, 10, 2_000_000_000);
    assert_eq!(r.process_packet(&p, &mut h, 11, 0), PacketOutcome::InvalidOriginTimestamp);
    assert_eq!(h, UdpReceiverIntervalHistory::new());
    assert_eq!(r.next_packet_id, 0);
    let mut s = UdpSender::new(definition(), &1);
    let p = send(&mut s, 10, 0);
    assert_eq!(r.process_packet(&p, &mut h, 11, 2_000_000_000), PacketOutcome::InvalidCurrentTimestamp);
}

#[test]
fn datagram_bytes_include_the_udp_header() {
    assert_eq!(UdpReceiver::datagram_bytes(100, 64), Some(172));
    assert_eq!(UdpReceiver::datagram_bytes(u64::MAX - 10, 64), None);
}

#[test]
fn transit_changes_that_overflow_are_reported() {
    let mut s = UdpSender::new(definition(), &1);
    let mut r = UdpReceiver::new(definition(), &1);
    let mut h = UdpReceiverIntervalHistory::new();
    h.unbroken_sequence = 1;
    h.previous_time_delta_nanoseconds = i64::MIN + 5;
    let before = h;
    let p = send(&mut s, 10, 0);
    assert_eq!(r.process_packet(&p, &mut h, 11, 0), PacketOutcome::TransitOverflow);
    assert_eq!(h, before);
    assert_eq!(r.next_packet_id, 0);
}

#[test]
fn transit_time_counts_nanoseconds_across_seconds() {
    let mut s = UdpSender::new(definition(), &1);
    let mut r = UdpReceiver::new(definition(), &1);
    let mut h = UdpReceiverIntervalHistory::new();
    // sent at 10.999999999, received at 12.000000001: 1.000000002 s in transit
    let p = send(&mut s, 10, 999_999_999);
    assert_eq!(
        r.process_packet(&p, &mut h, 12, 1),
        PacketOutcome::Counted { in_order: true, jitter: JitterUpdate::Baseline, new_longest: true }
    );
    assert_eq!(h.previous_time_delta_nanoseconds, 1_000_000_002);
    // a packet received before it was sent has a negative transit time
    let p = send(&mut s, 20, 0);
    assert_eq!(
        r.process_packet(&p, &mut h, 19, 500_000_000),
        PacketOutcome::Counted { in_order: true, jitter: JitterUpdate::Calibrate { delta_nanoseconds: 1_500_000_002 }, new_longest: true }
    );
    assert_eq!(h.previous_time_delta_nanoseconds, -500_000_000);
}

#[test]
fn leap_seconds_only_end_a_minute() {
    let mut s = UdpSender::new(definition(), &1);
    let mut r = UdpReceiver::new(definition(), &1);
    let mut h = UdpReceiverIntervalHistory::new();
    let p = send(&mut s, 10, 1_500_000_000);
    assert_eq!(r.process_packet(&p, &mut h, 61, 0), PacketOutcome::InvalidOriginTimestamp);
    let mut s = UdpSender::new(definition(), &1);
    let p = send(&mut s, 59, 1_500_000_000);
    assert_eq!(
        r.process_packet(&p, &mut h, 61, 0),
        PacketOutcome::Counted { in_order: true, jitter: JitterUpdate::Baseline, new_longest: true }
    );
    // from half-way through the leap second to second 61 is one and a half seconds
    assert_eq!(h.previous_time_delta_nanoseconds, 1_500_000_000);
}

#[test]
fn origin_times_count_throughout_chronos_years() {
    let earliest: i64 = -8_334_601_228_800;
    let latest: i64 = 8_210_266_876_799;
    for (secs, counted) in [(earliest, true), (latest, true), (earliest - 1, false), (latest + 1, false)] {
        let mut s = UdpSender::new(definition(), &1);
        let mut r = UdpReceiver::new(definition(), &1);
        let mut h = UdpReceiverIntervalHistory::new();
        let p = send(&mut s, secs as u64, 0);
        let o = r.process_packet(&p, &mut h, 11, 0);
        if counted {
            // the transit time is far beyond an i64 of nanoseconds
            assert_eq!(o, PacketOutcome::Counted { in_order: true, jitter: JitterUpdate::ClocksOutOfSync, new_longest: true });
            assert_eq!(h.unbroken_sequence, 1);
        } else {
            assert_eq!(o, PacketOutcome::InvalidOriginTimestamp);
        }
    }
}

#[test]
fn full_counters_refuse_the_packet() {
    let mut s = UdpSender::new(definition(), &1);
    let mut r = UdpReceiver::new(definition(), &1);
    let mut h = UdpReceiverIntervalHistory::new();
    h.packets_received = u64::MAX;
    let before = h;
    let p = send(&mut s, 10, 0);
    assert_eq!(r.process_packet(&p, &mut h, 11, 0), PacketOutcome::CounterOverflow);
    assert_eq!(h, before);
    let mut h = UdpReceiverIntervalHistory::new();
    h.unbroken_sequence = u64::MAX;
    assert_eq!(r.process_packet(&p, &mut h, 11, 0), PacketOutcome::CounterOverflow);
    // a duplicate needs room in its own counter only
    let mut h = UdpReceiverIntervalHistory::new();
    h.packets_duplicated = u64::MAX;
    r.next_packet_id = 5;
    assert_eq!(r.process_packet(&p, &mut h, 11, 0), PacketOutcome::CounterOverflow);
}

#[test]
fn jitter_steps() {
    let mut h = UdpReceiverIntervalHistory::new();
    assert_eq!(process_jitter(&mut h, None), JitterUpdate::ClocksOutOfSync);
    assert_eq!(h, UdpReceiverIntervalHistory::new());
    h.unbroken_sequence = 1;
    assert_eq!(process_jitter(&mut h, Some(100)), JitterUpdate::Baseline);
    h.unbroken_sequence = 2;
    assert_eq!(process_jitter(&mut h, Some(40)), JitterUpdate::Calibrate { delta_nanoseconds: 60 });
    h.unbroken_sequence = 3;
    assert_eq!(process_jitter(&mut h, Some(55)), JitterUpdate::Smooth { delta_nanoseconds: 15 });
    assert_eq!(h.previous_time_delta_nanoseconds, 55);
}

#[test]
fn ordering_totals_add_up() {
    // ids 0, 3, 1, 1, 2: packets 1 and 2 are skipped over, then three ids come behind
    let mut r = UdpReceiver::new(definition(), &1);
    let mut h = UdpReceiverIntervalHistory::new();
    for id in [0u64, 3, 1, 1, 2] {
        r.process_packets_ordering(id, &mut h);
        assert!(h.packets_lost >= 0);
    }
    assert_eq!(h.packets_lost + h.packets_out_of_order as i64, 2);
    assert_eq!(h.packets_out_of_order + h.packets_duplicated, 3);
    assert_eq!((h.packets_lost, h.packets_out_of_order, h.packets_duplicated), (0, 2, 1));
}

#[test]
fn datagram_ids_run_on_across_retries() {
    let def = definition();
    let mut s = UdpSender::new(def, &0);
    let mut sent: Vec<Vec<u8>> = Vec::new();
    for round in 0..3u64 {
        // a datagram that could not leave is staged again, with the same id
        s.prepare_packet(100 + round, 1);
        s.prepare_packet(200 + round, 2);
        sent.push(s.staged_packet.clone());
        s.packet_sent();
    }
    assert_eq!(s.next_packet_id, 3);
    for (j, d) in sent.iter().enumerate() {
        assert_eq!(d.len(), 64);
        assert_eq!(&d[0..16], &def.test_id[..]);
        assert_eq!(u64::from_be_bytes(d[16..24].try_into().unwrap()), j as u64);
        assert_eq!(u64::from_be_bytes(d[24..32].try_into().unwrap()), 200 + j as u64);
        assert_eq!(u32::from_be_bytes(d[32..36].try_into().unwrap()), 2);
        for i in 36..64 {
            assert_eq!(d[i], i as u8);
        }
    }
}
