use super::port_spec::{
    bind_order, parse_port_spec, port_spec_ports, port_spec_valid, search_order, sorted_u16,
};
use super::{test_id_byte, test_id_from_details, DefinitionError, TestDetails, TestStream};
use crate::bytes::{be_bytes, be_value, read_be, write_be};
use crate::clock::{
    chrono_span, chrono_valid, fit_i64, nanoseconds_between, timestamp_from_parts,
};
use vstd::prelude::*;
use vstd::utf8::encode_utf8;

verus! {

/// Bytes at the head of every UDP test packet: the test id (16), the packet id (8),
/// the send time's seconds (8) and nanoseconds (4).
pub const TEST_HEADER_SIZE: u16 = 36;

/// The bytes that the UDP header adds to every datagram on the wire.
pub const UDP_HEADER_SIZE: u16 = 8;

/// What one UDP test stream exchanges.
#[derive(Clone, Copy)]
pub struct UdpTestDefinition {
    /// Identifies the packets that belong to the test.
    pub test_id: [u8; 16],
    /// Bandwidth target, in bytes per second.
    pub bandwidth: u64,
    /// The length of each datagram's payload.
    pub length: u16,
}

impl UdpTestDefinition {
    /// Reads a test definition from a configuration: the length defaults to the
    /// header size and keeps its low sixteen bits, and must hold the header.
    pub fn new(details: &TestDetails) -> (r: Result<UdpTestDefinition, DefinitionError>)
        ensures
            ({
                let length = (match details.length {
                    Some(l) => l,
                    None => TEST_HEADER_SIZE as i64,
                }) as u16;
                &&& length < TEST_HEADER_SIZE ==> r == Err::<UdpTestDefinition, DefinitionError>(
                    DefinitionError::LengthTooShort(length as u64),
                )
                &&& length >= TEST_HEADER_SIZE ==> (r matches Ok(d) && d.length == length
                    && d.bandwidth == details.bandwidth && forall|i: int|
                    0 <= i < 16 ==> #[trigger] d.test_id@[i] == test_id_byte(details.test_id@, i))
            }),
    {
        let test_id = test_id_from_details(&details.test_id);
        let raw: i64 = match details.length {
            Some(l) => l,
            None => TEST_HEADER_SIZE as i64,
        };
        let length = raw as u16;
        if length < TEST_HEADER_SIZE {
            return Err(DefinitionError::LengthTooShort(length as u64));
        }
        Ok(UdpTestDefinition { test_id, bandwidth: details.bandwidth, length })
    }
}

/// The filler byte at position `i` of a datagram's payload, after the header.
pub open spec fn filler_byte(i: int) -> u8 {
    (i % 256) as u8
}

/// The payload that a sender starts from: the test id, a header area to be filled
/// per packet, then a fixed byte sequence.
pub open spec fn staged_packet_spec(def: UdpTestDefinition, p: Seq<u8>) -> bool {
    &&& p.len() == def.length
    &&& forall|i: int| 0 <= i < 16 ==> #[trigger] p[i] == def.test_id@[i]
    &&& forall|i: int| 16 <= i < TEST_HEADER_SIZE ==> #[trigger] p[i] == 0
    &&& forall|i: int| TEST_HEADER_SIZE <= i < p.len() ==> #[trigger] p[i] == filler_byte(i)
}

/// The header fields of a datagram, as they stand in its first 36 bytes.
pub open spec fn packet_id_of(p: Seq<u8>) -> nat {
    be_value(p.subrange(16, 24))
}

pub open spec fn origin_seconds_of(p: Seq<u8>) -> i64 {
    be_value(p.subrange(24, 32)) as u64 as i64
}

pub open spec fn origin_nanoseconds_of(p: Seq<u8>) -> nat {
    be_value(p.subrange(32, 36))
}

/// What `prepare_packet` does: it writes the packet id and the send time into
/// the staged datagram's header, big-endian, and changes nothing else.
pub open spec fn packet_prepared(before: UdpSender, secs: u64, nanos: u32, after: UdpSender) -> bool {
    let p = before.staged_packet@;
    let q = after.staged_packet@;
    &&& q.len() == p.len()
    &&& q.subrange(0, 16) == p.subrange(0, 16)
    &&& q.subrange(16, 24) == be_bytes(before.next_packet_id as nat, 8)
    &&& q.subrange(24, 32) == be_bytes(secs as nat, 8)
    &&& q.subrange(32, 36) == be_bytes(nanos as nat, 4)
    &&& forall|i: int| TEST_HEADER_SIZE <= i < p.len() ==> #[trigger] q[i] == p[i]
    &&& after.next_packet_id == before.next_packet_id
    &&& after.stream_idx == before.stream_idx
    &&& after.active == before.active
    &&& after.test_definition == before.test_definition
}

/// What `packet_sent` does: the next datagram carries the next id, and nothing
/// else changes.
pub open spec fn packet_accounted(before: UdpSender, after: UdpSender) -> bool {
    &&& after.next_packet_id == before.next_packet_id + 1
    &&& after.staged_packet == before.staged_packet
    &&& after.active == before.active
    &&& after.stream_idx == before.stream_idx
    &&& after.test_definition == before.test_definition
}

/// A call on a sender: staging its datagram with a send time (seconds and
/// nanoseconds since the UNIX epoch), or accounting for the datagram that left.
pub enum SenderCall {
    Prepare(u64, u32),
    Sent,
}

/// What one call does to a sender, as the contract of `prepare_packet` or
/// `packet_sent` says.
pub open spec fn sender_step(before: UdpSender, call: SenderCall, after: UdpSender) -> bool {
    match call {
        SenderCall::Prepare(secs, nanos) => packet_prepared(before, secs, nanos, after),
        SenderCall::Sent => packet_accounted(before, after),
    }
}

/// The send time that a `Prepare` call stages (zero for any other call).
pub open spec fn staged_time(call: SenderCall) -> (u64, u32) {
    match call {
        SenderCall::Prepare(secs, nanos) => (secs, nanos),
        SenderCall::Sent => (0, 0),
    }
}

/// The number of datagrams that left over `calls`.
pub open spec fn sent_count(calls: Seq<SenderCall>) -> nat
    decreases calls.len(),
{
    if calls.len() == 0 {
        0
    } else {
        sent_count(calls.drop_last()) + if calls.last() is Sent {
            1nat
        } else {
            0nat
        }
    }
}

/// The sending side of a UDP test stream: what it has sent and the datagram it sends.
pub struct UdpSender {
    pub active: bool,
    pub test_definition: UdpTestDefinition,
    pub stream_idx: u8,
    pub next_packet_id: u64,
    pub staged_packet: Vec<u8>,
}

impl UdpSender {
    /// A sender for stream `stream_idx`, with its datagram staged.
    pub fn new(test_definition: UdpTestDefinition, stream_idx: &u8) -> (r: UdpSender)
        requires
            test_definition.length >= TEST_HEADER_SIZE,
        ensures
            r.active,
            r.test_definition == test_definition,
            r.stream_idx == *stream_idx,
            r.next_packet_id == 0,
            staged_packet_spec(test_definition, r.staged_packet@),
    {
        let len = test_definition.length as usize;
        let mut staged: Vec<u8> = Vec::new();
        let mut i: usize = 0;
        while i < len
            invariant
                i <= len,
                len == test_definition.length,
                staged@.len() == i,
                forall|k: int| 0 <= k < i && k < TEST_HEADER_SIZE ==> #[trigger] staged@[k] == 0,
                forall|k: int|
                    TEST_HEADER_SIZE <= k < i ==> #[trigger] staged@[k] == filler_byte(k),
            decreases len - i,
        {
            if i < TEST_HEADER_SIZE as usize {
                staged.push(0);
            } else {
                staged.push((i % 256) as u8);
            }
            i = i + 1;
        }
        for k in 0..16
            invariant
                len == test_definition.length,
                len >= TEST_HEADER_SIZE,
                staged@.len() == len,
                forall|j: int| 0 <= j < k ==> #[trigger] staged@[j] == test_definition.test_id@[j],
                forall|j: int| k <= j < TEST_HEADER_SIZE ==> #[trigger] staged@[j] == 0,
                forall|j: int|
                    TEST_HEADER_SIZE <= j < len ==> #[trigger] staged@[j] == filler_byte(j),
        {
            staged.set(k, test_definition.test_id[k]);
        }
        UdpSender {
            active: true,
            test_definition,
            stream_idx: *stream_idx,
            next_packet_id: 0,
            staged_packet: staged,
        }
    }

    /// Writes the packet id and the send time (seconds and nanoseconds since the
    /// UNIX epoch) into the staged datagram's header, big-endian.
    pub fn prepare_packet(&mut self, now_secs: u64, now_nanos: u32)
        requires
            old(self).staged_packet@.len() >= TEST_HEADER_SIZE,
        ensures
            packet_prepared(*old(self), now_secs, now_nanos, *final(self)),
    {
        let ghost before = self.staged_packet@;
        write_be(&mut self.staged_packet, 16, self.next_packet_id, 8);
        let ghost after_id = self.staged_packet@;
        write_be(&mut self.staged_packet, 24, now_secs, 8);
        let ghost after_secs = self.staged_packet@;
        write_be(&mut self.staged_packet, 32, now_nanos as u64, 4);
        assert(self.staged_packet@.subrange(0, 16) =~= before.subrange(0, 16));
        assert(self.staged_packet@.subrange(16, 24) =~= after_id.subrange(16, 24));
        assert(self.staged_packet@.subrange(24, 32) =~= after_secs.subrange(24, 32));
    }

    /// Accounts for a datagram that left: the next one carries the next id.
    pub fn packet_sent(&mut self)
        requires
            old(self).next_packet_id < u64::MAX,
        ensures
            packet_accounted(*old(self), *final(self)),
    {
        self.next_packet_id = self.next_packet_id + 1;
    }

    /// The datagram that tells the receiver that the test is over: the test id alone.
    pub fn end_of_test_signal(&self) -> (r: Vec<u8>)
        ensures
            r@ == self.test_definition.test_id@,
    {
        let mut r: Vec<u8> = Vec::new();
        for k in 0..16
            invariant
                r@ =~= self.test_definition.test_id@.take(k as int),
        {
            r.push(self.test_definition.test_id[k]);
        }
        assert(r@ =~= self.test_definition.test_id@);
        r
    }
}

impl TestStream for UdpSender {
    fn get_idx(&self) -> (r: u8)
        ensures
            r == self.stream_idx,
    {
        self.stream_idx
    }

    fn stop(&mut self)
        ensures
            !final(self).active,
            final(self).next_packet_id == old(self).next_packet_id,
            final(self).staged_packet == old(self).staged_packet,
            final(self).stream_idx == old(self).stream_idx,
            final(self).test_definition == old(self).test_definition,
    {
        self.active = false;
    }
}

/// What a receiver has observed of a stream during one interval.
#[derive(Clone, Copy, Debug, PartialEq, Eq)]
pub struct UdpReceiverIntervalHistory {
    pub packets_received: u64,
    pub packets_lost: i64,
    pub packets_out_of_order: u64,
    pub packets_duplicated: u64,
    /// Packets received in order since the last break in sequence.
    pub unbroken_sequence: u64,
    pub longest_unbroken_sequence: u64,
    /// The last transit time (receive time less send time) seen, in nanoseconds.
    pub previous_time_delta_nanoseconds: i64,
}

impl UdpReceiverIntervalHistory {
    /// The history at the start of an interval.
    pub fn new() -> (r: UdpReceiverIntervalHistory)
        ensures
            r == (UdpReceiverIntervalHistory {
                packets_received: 0,
                packets_lost: 0,
                packets_out_of_order: 0,
                packets_duplicated: 0,
                unbroken_sequence: 0,
                longest_unbroken_sequence: 0,
                previous_time_delta_nanoseconds: 0,
            }),
    {
        UdpReceiverIntervalHistory {
            packets_received: 0,
            packets_lost: 0,
            packets_out_of_order: 0,
            packets_duplicated: 0,
            unbroken_sequence: 0,
            longest_unbroken_sequence: 0,
            previous_time_delta_nanoseconds: 0,
        }
    }
}

/// Whether the ordering step for `packet_id` stays within the counters' ranges.
pub open spec fn ordering_defined(next: u64, h: UdpReceiverIntervalHistory, packet_id: u64) -> bool {
    if packet_id == next {
        next < u64::MAX
    } else if packet_id > next {
        &&& packet_id < u64::MAX
        &&& i64::MIN <= h.packets_lost + ((packet_id - next) as i64) <= i64::MAX
    } else if h.packets_lost > 0 {
        h.packets_out_of_order < u64::MAX
    } else {
        h.packets_duplicated < u64::MAX
    }
}

/// The ordering step: the expected packet advances the expectation; a later one
/// counts the gap as lost and expects what follows it; an earlier one is taken for
/// a late arrival while losses are outstanding, and for a duplicate otherwise.
pub open spec fn ordering_next(next: u64, h: UdpReceiverIntervalHistory, packet_id: u64) -> (
    u64,
    UdpReceiverIntervalHistory,
    bool,
) {
    if packet_id == next {
        ((next + 1) as u64, h, true)
    } else if packet_id > next {
        (
            (packet_id + 1) as u64,
            UdpReceiverIntervalHistory {
                packets_lost: (h.packets_lost + ((packet_id - next) as i64)) as i64,
                ..h
            },
            false,
        )
    } else if h.packets_lost > 0 {
        (
            next,
            UdpReceiverIntervalHistory {
                packets_lost: (h.packets_lost - 1) as i64,
                packets_out_of_order: (h.packets_out_of_order + 1) as u64,
                ..h
            },
            false,
        )
    } else {
        (
            next,
            UdpReceiverIntervalHistory {
                packets_duplicated: (h.packets_duplicated + 1) as u64,
                ..h
            },
            false,
        )
    }
}

/// How a packet changes the jitter estimate.
#[derive(Clone, Copy, Debug, PartialEq, Eq)]
pub enum JitterUpdate {
    /// The packet broke the sequence: the estimate is discarded.
    SequenceBroken,
    /// The transit time could not be measured: nothing changes.
    ClocksOutOfSync,
    /// The first packet of a sequence: its transit time is the baseline.
    Baseline,
    /// The second packet of a sequence: the estimate starts at this transit-time change.
    Calibrate { delta_nanoseconds: u64 },
    /// A later packet: the estimate moves a sixteenth of the way to this transit-time change.
    Smooth { delta_nanoseconds: u64 },
}

/// The size of the change between two transit times, in nanoseconds.
pub open spec fn transit_change(current: i64, previous: i64) -> int {
    if current - previous >= 0 {
        current - previous
    } else {
        previous - current
    }
}

/// Whether the jitter step for `transit` is within range: the change between
/// transit times must be an `i64` whose magnitude is one too.
pub open spec fn jitter_defined(h: UdpReceiverIntervalHistory, transit: Option<i64>) -> bool {
    match transit {
        Some(t) => h.unbroken_sequence > 1 ==> i64::MIN < t - h.previous_time_delta_nanoseconds
            <= i64::MAX,
        None => true,
    }
}

/// The jitter step that a transit time makes in a sequence now `unbroken` packets
/// long, after a transit time of `previous`.
pub open spec fn jitter_step(unbroken: int, previous: i64, transit: Option<i64>) -> JitterUpdate {
    match transit {
        None => JitterUpdate::ClocksOutOfSync,
        Some(t) => if unbroken <= 1 {
            JitterUpdate::Baseline
        } else if unbroken == 2 {
            JitterUpdate::Calibrate { delta_nanoseconds: transit_change(t, previous) as u64 }
        } else {
            JitterUpdate::Smooth { delta_nanoseconds: transit_change(t, previous) as u64 }
        },
    }
}

/// The transit time of a packet sent at `origin_secs`/`origin_nanos` and received
/// at `now_secs`/`now_nanos`: the span between them in nanoseconds, as chrono
/// measures it, where it fits an `i64`.
pub open spec fn transit_of(origin_secs: i64, origin_nanos: u32, now_secs: i64, now_nanos: u32) -> Option<
    i64,
> {
    fit_i64(chrono_span(now_secs, now_nanos, origin_secs, origin_nanos))
}

/// Whether the counters can take a packet with id `id`: the packet count, the
/// ordering step and, for the expected packet, the unbroken sequence.
pub open spec fn packet_counters_fit(next: u64, h: UdpReceiverIntervalHistory, id: u64) -> bool {
    &&& h.packets_received < u64::MAX
    &&& ordering_defined(next, h, id)
    &&& id == next ==> h.unbroken_sequence < u64::MAX
}

/// What a receiver that expects packet `next`, with history `h`, makes of a packet
/// bearing its test's id, read at `now_secs`/`now_nanos`: the outcome, the packet
/// expected next and the history afterwards. The step needs the counters to fit,
/// and for the expected packet also two times that chrono dates and a transit-time
/// change within range; it is taken exactly when they are.
pub open spec fn packet_step(
    next: u64,
    h: UdpReceiverIntervalHistory,
    packet: Seq<u8>,
    now_secs: i64,
    now_nanos: u32,
    outcome: PacketOutcome,
    next_after: u64,
    h_after: UdpReceiverIntervalHistory,
) -> bool {
    let id = packet_id_of(packet) as u64;
    let origin_secs = origin_seconds_of(packet);
    let origin_nanos = origin_nanoseconds_of(packet) as u32;
    let in_order = id == next;
    let fits = packet_counters_fit(next, h, id);
    let origin_valid = chrono_valid(origin_secs, origin_nanos);
    let now_valid = chrono_valid(now_secs, now_nanos);
    let transit = transit_of(origin_secs, origin_nanos, now_secs, now_nanos);
    let comparable = jitter_defined(
        UdpReceiverIntervalHistory { unbroken_sequence: (h.unbroken_sequence + 1) as u64, ..h },
        transit,
    );
    &&& (outcome == PacketOutcome::CounterOverflow) == !fits
    &&& (outcome is Counted) == (fits && (!in_order || (origin_valid && now_valid && comparable)))
    &&& (outcome is InvalidOriginTimestamp) == (fits && in_order && !origin_valid)
    &&& (outcome is InvalidCurrentTimestamp) == (fits && in_order && origin_valid && !now_valid)
    &&& (outcome is TransitOverflow) == (fits && in_order && origin_valid && now_valid
        && !comparable)
    &&& !(outcome is EndOfTest) && !(outcome is Malformed) && !(outcome is Unrelated)
    &&& !(outcome is Counted) ==> next_after == next && h_after == h
    &&& outcome matches PacketOutcome::Counted { in_order: ordered, jitter, new_longest } ==> {
        let h1 = UdpReceiverIntervalHistory { packets_received: (h.packets_received + 1) as u64, ..h };
        let step = ordering_next(next, h1, id);
        &&& next_after == step.0
        &&& ordered == step.2
        &&& h_after.packets_received == h1.packets_received
        &&& h_after.packets_lost == step.1.packets_lost
        &&& h_after.packets_out_of_order == step.1.packets_out_of_order
        &&& h_after.packets_duplicated == step.1.packets_duplicated
        &&& !ordered ==> {
            &&& h_after.unbroken_sequence == 0
            &&& h_after.longest_unbroken_sequence == h.longest_unbroken_sequence
            &&& h_after.previous_time_delta_nanoseconds == h.previous_time_delta_nanoseconds
            &&& jitter == JitterUpdate::SequenceBroken
            &&& !new_longest
        }
        &&& ordered ==> {
            let unbroken = h.unbroken_sequence + 1;
            &&& h_after.unbroken_sequence == unbroken
            &&& new_longest == (unbroken > h.longest_unbroken_sequence)
            &&& h_after.longest_unbroken_sequence == (if new_longest {
                unbroken
            } else {
                h.longest_unbroken_sequence as int
            })
            &&& jitter == jitter_step(unbroken, h.previous_time_delta_nanoseconds, transit)
            &&& h_after.previous_time_delta_nanoseconds == (match transit {
                Some(t) => t,
                None => h.previous_time_delta_nanoseconds,
            })
        }
    }
}

/// The jitter step (RFC 1889, appendix A.8): with no measured transit time nothing
/// changes; otherwise the change from the previous transit time calibrates the
/// estimate on the second packet of a sequence and smooths it on later ones, and
/// the transit time is kept for the next packet.
pub fn process_jitter(history: &mut UdpReceiverIntervalHistory, transit: Option<i64>) -> (update:
    JitterUpdate)
    requires
        jitter_defined(*old(history), transit),
    ensures
        update == jitter_step(
            old(history).unbroken_sequence as int,
            old(history).previous_time_delta_nanoseconds,
            transit,
        ),
        transit is None ==> update == JitterUpdate::ClocksOutOfSync && *final(history) == *old(history),
        transit matches Some(t) ==> {
            &&& *final(history) == (UdpReceiverIntervalHistory {
                previous_time_delta_nanoseconds: t,
                ..*old(history)
            })
            &&& old(history).unbroken_sequence <= 1 ==> update == JitterUpdate::Baseline
            &&& old(history).unbroken_sequence == 2 ==> update == (JitterUpdate::Calibrate {
                delta_nanoseconds: transit_change(t, old(history).previous_time_delta_nanoseconds)
                    as u64,
            })
            &&& old(history).unbroken_sequence > 2 ==> update == (JitterUpdate::Smooth {
                delta_nanoseconds: transit_change(t, old(history).previous_time_delta_nanoseconds)
                    as u64,
            })
        },
{
    match transit {
        None => JitterUpdate::ClocksOutOfSync,
        Some(t) => {
            let update = if history.unbroken_sequence > 1 {
                let diff: i64 = t - history.previous_time_delta_nanoseconds;
                let delta: u64 = if diff >= 0 {
                    diff as u64
                } else {
                    (-diff) as u64
                };
                if history.unbroken_sequence > 2 {
                    JitterUpdate::Smooth { delta_nanoseconds: delta }
                } else {
                    JitterUpdate::Calibrate { delta_nanoseconds: delta }
                }
            } else {
                JitterUpdate::Baseline
            };
            history.previous_time_delta_nanoseconds = t;
            update
        },
    }
}

/// What becomes of a datagram that a receiver reads.
#[derive(Clone, Copy, Debug, PartialEq, Eq)]
pub enum PacketOutcome {
    /// The datagram is the sender's end-of-test signal.
    EndOfTest,
    /// The datagram is too short to be a test packet.
    Malformed,
    /// The datagram carries another test's id.
    Unrelated,
    /// The datagram was counted; `new_longest` says that the current sequence is
    /// now the longest of the interval, so its jitter estimate is the one reported.
    Counted { in_order: bool, jitter: JitterUpdate, new_longest: bool },
    /// Counting the datagram would take a counter out of its range.
    CounterOverflow,
    /// The datagram's send time is not a representable date.
    InvalidOriginTimestamp,
    /// The receiver's clock reading is not a representable date.
    InvalidCurrentTimestamp,
    /// The change between transit times does not fit the arithmetic.
    TransitOverflow,
}

/// The receiving side of a UDP test stream.
pub struct UdpReceiver {
    pub active: bool,
    pub test_definition: UdpTestDefinition,
    pub stream_idx: u8,
    pub next_packet_id: u64,
}

impl UdpReceiver {
    /// A receiver for stream `stream_idx`, expecting packet 0 first.
    pub fn new(test_definition: UdpTestDefinition, stream_idx: &u8) -> (r: UdpReceiver)
        ensures
            r.active,
            r.test_definition == test_definition,
            r.stream_idx == *stream_idx,
            r.next_packet_id == 0,
    {
        UdpReceiver { active: true, test_definition, stream_idx: *stream_idx, next_packet_id: 0 }
    }

    /// Tracks lost, late and duplicated packets (the approximation that iperf3
    /// uses); returns whether the packet came in the expected order.
    pub fn process_packets_ordering(
        &mut self,
        packet_id: u64,
        history: &mut UdpReceiverIntervalHistory,
    ) -> (in_order: bool)
        requires
            ordering_defined(old(self).next_packet_id, *old(history), packet_id),
        ensures
            (final(self).next_packet_id, *final(history), in_order) == ordering_next(
                old(self).next_packet_id,
                *old(history),
                packet_id,
            ),
            final(self).active == old(self).active,
            final(self).stream_idx == old(self).stream_idx,
            final(self).test_definition == old(self).test_definition,
    {
        if packet_id == self.next_packet_id {
            self.next_packet_id = self.next_packet_id + 1;
            return true;
        } else if packet_id > self.next_packet_id {
            let lost_packet_count = (packet_id - self.next_packet_id) as i64;
            history.packets_lost = history.packets_lost + lost_packet_count;
            self.next_packet_id = packet_id + 1;
        } else {
            if history.packets_lost > 0 {
                history.packets_lost = history.packets_lost - 1;
                history.packets_out_of_order = history.packets_out_of_order + 1;
            } else {
                history.packets_duplicated = history.packets_duplicated + 1;
            }
        }
        false
    }

    /// Counts a test packet held in `packet` (at least a header long): its id
    /// goes through the ordering step; a packet in order extends the unbroken
    /// sequence and feeds its transit time, measured against the clock reading
    /// `now_secs`/`now_nanos`, to the jitter step; one out of order ends the sequence.
    /// A packet of another test changes nothing. Where the arithmetic or the
    /// timestamps would not allow the step, nothing changes and the outcome says why.
    pub fn process_packet(
        &mut self,
        packet: &[u8],
        history: &mut UdpReceiverIntervalHistory,
        now_secs: i64,
        now_nanos: u32,
    ) -> (outcome: PacketOutcome)
        requires
            packet@.len() >= TEST_HEADER_SIZE,
        ensures
            final(self).active == old(self).active,
            final(self).stream_idx == old(self).stream_idx,
            final(self).test_definition == old(self).test_definition,
            packet@.take(16) != old(self).test_definition.test_id@ ==> outcome
                == PacketOutcome::Unrelated && *final(history) == *old(history)
                && final(self).next_packet_id == old(self).next_packet_id,
            packet@.take(16) == old(self).test_definition.test_id@ ==> packet_step(
                old(self).next_packet_id,
                *old(history),
                packet@,
                now_secs,
                now_nanos,
                outcome,
                final(self).next_packet_id,
                *final(history),
            ),
    {
        if !super::matches_test_id(packet, &self.test_definition.test_id) {
            return PacketOutcome::Unrelated;
        }
        let packet_id = read_be(packet, 16, 8);
        if history.packets_received == u64::MAX {
            return PacketOutcome::CounterOverflow;
        }
        let h1 = UdpReceiverIntervalHistory {
            packets_received: history.packets_received + 1,
            ..*history
        };
        let next = self.next_packet_id;
        let defined = if packet_id == next {
            next < u64::MAX
        } else if packet_id > next {
            let lost = (packet_id - next) as i64;
            packet_id < u64::MAX && (if lost >= 0 {
                h1.packets_lost <= i64::MAX - lost
            } else {
                h1.packets_lost >= i64::MIN - lost
            })
        } else if h1.packets_lost > 0 {
            h1.packets_out_of_order < u64::MAX
        } else {
            h1.packets_duplicated < u64::MAX
        };
        if !defined {
            return PacketOutcome::CounterOverflow;
        }
        if packet_id == next {
            if h1.unbroken_sequence == u64::MAX {
                return PacketOutcome::CounterOverflow;
            }
            let origin_seconds = read_be(packet, 24, 8) as i64;
            let origin_nanoseconds = read_be(packet, 32, 4) as u32;
            let source_timestamp = match timestamp_from_parts(origin_seconds, origin_nanoseconds) {
                Some(ts) => ts,
                None => {
                    return PacketOutcome::InvalidOriginTimestamp;
                },
            };
            let current_timestamp = match timestamp_from_parts(now_secs, now_nanos) {
                Some(ts) => ts,
                None => {
                    return PacketOutcome::InvalidCurrentTimestamp;
                },
            };
            let transit = nanoseconds_between(&current_timestamp, &source_timestamp);
            let unbroken = h1.unbroken_sequence + 1;
            if let Some(t) = transit {
                if unbroken > 1 {
                    let prev = h1.previous_time_delta_nanoseconds;
                    let ok = if prev >= 0 {
                        t > i64::MIN + prev
                    } else {
                        t <= i64::MAX + prev
                    };
                    if !ok {
                        return PacketOutcome::TransitOverflow;
                    }
                }
            }
            *history = h1;
            let in_order = self.process_packets_ordering(packet_id, history);
            history.unbroken_sequence = unbroken;
            let jitter = process_jitter(history, transit);
            let new_longest = history.unbroken_sequence > history.longest_unbroken_sequence;
            if new_longest {
                history.longest_unbroken_sequence = history.unbroken_sequence;
            }
            PacketOutcome::Counted { in_order, jitter, new_longest }
        } else {
            *history = h1;
            let in_order = self.process_packets_ordering(packet_id, history);
            history.unbroken_sequence = 0;
            PacketOutcome::Counted { in_order, jitter: JitterUpdate::SequenceBroken, new_longest: false }
        }
    }

    /// Handles one datagram of `packet_size` bytes read into `buffer`: a datagram
    /// of exactly sixteen bytes that is the test id ends the test (and stops the
    /// receiver); one shorter than the header is malformed; anything else is
    /// counted as a test packet, as `process_packet` says.
    pub fn process_datagram(
        &mut self,
        buffer: &[u8],
        packet_size: usize,
        history: &mut UdpReceiverIntervalHistory,
        now_secs: i64,
        now_nanos: u32,
    ) -> (outcome: PacketOutcome)
        requires
            packet_size <= buffer@.len(),
            buffer@.len() >= TEST_HEADER_SIZE,
        ensures
            packet_size == 16 && buffer@.take(16) == old(self).test_definition.test_id@ ==> outcome
                == PacketOutcome::EndOfTest && *final(self) == (UdpReceiver {
                active: false,
                ..*old(self)
            }) && *final(history) == *old(history),
            !(packet_size == 16 && buffer@.take(16) == old(self).test_definition.test_id@)
                && packet_size < TEST_HEADER_SIZE ==> outcome == PacketOutcome::Malformed
                && *final(history) == *old(history) && *final(self) == *old(self),
            outcome is Counted ==> packet_size >= TEST_HEADER_SIZE,
            packet_size >= TEST_HEADER_SIZE && buffer@.take(16) != old(self).test_definition.test_id@
                ==> outcome == PacketOutcome::Unrelated && *final(history) == *old(history)
                && *final(self) == *old(self),
            packet_size >= TEST_HEADER_SIZE && buffer@.take(16) == old(self).test_definition.test_id@
                ==> final(self).active == old(self).active && packet_step(
                old(self).next_packet_id,
                *old(history),
                buffer@,
                now_secs,
                now_nanos,
                outcome,
                final(self).next_packet_id,
                *final(history),
            ),
            final(self).stream_idx == old(self).stream_idx,
            final(self).test_definition == old(self).test_definition,
    {
        if packet_size == 16 {
            if super::matches_test_id(buffer, &self.test_definition.test_id) {
                self.stop();
                return PacketOutcome::EndOfTest;
            }
        }
        if packet_size < TEST_HEADER_SIZE as usize {
            return PacketOutcome::Malformed;
        }
        self.process_packet(buffer, history, now_secs, now_nanos)
    }

    /// The bytes that a counted datagram adds to the interval's tally: its payload
    /// and the UDP header.
    pub fn datagram_bytes(bytes_received: u64, packet_size: usize) -> (r: Option<u64>)
        ensures
            bytes_received + packet_size + UDP_HEADER_SIZE <= u64::MAX ==> r == Some(
                (bytes_received + packet_size + UDP_HEADER_SIZE) as u64,
            ),
            bytes_received + packet_size + UDP_HEADER_SIZE > u64::MAX ==> r is None,
    {
        let size = packet_size as u64;
        if size > u64::MAX - UDP_HEADER_SIZE as u64 {
            return None;
        }
        bytes_received.checked_add(size + UDP_HEADER_SIZE as u64)
    }
}

impl TestStream for UdpReceiver {
    fn get_idx(&self) -> (r: u8)
        ensures
            r == self.stream_idx,
    {
        self.stream_idx
    }

    fn stop(&mut self)
        ensures
            !final(self).active,
            final(self).next_packet_id == old(self).next_packet_id,
            final(self).stream_idx == old(self).stream_idx,
            final(self).test_definition == old(self).test_definition,
    {
        self.active = false;
    }
}

/// The UDP ports over which a server accepts test streams, for IPv4 and IPv6 peers;
/// an empty pool leaves the choice to the OS. Each bind search starts after the
/// port last bound.
pub struct UdpPortPool {
    pub ports_ip4: Vec<u16>,
    pub ports_ip6: Vec<u16>,
    pos_ip4: usize,
    pos_ip6: usize,
}

impl UdpPortPool {
    /// The position of the port last bound stays inside a non-empty pool.
    pub closed spec fn wf(&self) -> bool {
        &&& (self.ports_ip4@.len() == 0 || self.pos_ip4 < self.ports_ip4@.len())
        &&& (self.ports_ip6@.len() == 0 || self.pos_ip6 < self.ports_ip6@.len())
    }

    /// Where the last bind search for the given family succeeded.
    pub closed spec fn position(&self, ipv6: bool) -> usize {
        if ipv6 {
            self.pos_ip6
        } else {
            self.pos_ip4
        }
    }

    pub closed spec fn ports(&self, ipv6: bool) -> Seq<u16> {
        if ipv6 {
            self.ports_ip6@
        } else {
            self.ports_ip4@
        }
    }

    /// A pool of the ports that the two specifications list, each sorted.
    pub fn new(port_spec: &str, port_spec6: &str) -> (r: UdpPortPool)
        requires
            port_spec_valid(encode_utf8(port_spec@)),
            port_spec_valid(encode_utf8(port_spec6@)),
        ensures
            r.wf(),
            r.position(false) == 0,
            r.position(true) == 0,
            sorted_u16(r.ports(false)),
            r.ports(false).to_multiset() =~= port_spec_ports(encode_utf8(port_spec@)).to_multiset(),
            sorted_u16(r.ports(true)),
            r.ports(true).to_multiset() =~= port_spec_ports(encode_utf8(port_spec6@)).to_multiset(),
    {
        let ports = parse_port_spec(port_spec);
        let ports6 = parse_port_spec(port_spec6);
        UdpPortPool { ports_ip4: ports, ports_ip6: ports6, pos_ip4: 0, pos_ip6: 0 }
    }

    /// The pool indices to try when binding for a peer of the given family, in
    /// order; empty when the pool is, and the OS then picks the port.
    pub fn bind_order(&self, ipv6: bool) -> (r: Vec<usize>)
        requires
            self.wf(),
        ensures
            self.ports(ipv6).len() == 0 ==> r@.len() == 0,
            self.ports(ipv6).len() > 0 ==> r@ == search_order(
                self.ports(ipv6).len(),
                self.position(ipv6) as nat,
            ),
    {
        if ipv6 {
            if self.ports_ip6.len() == 0 {
                Vec::new()
            } else {
                bind_order(self.ports_ip6.len(), self.pos_ip6)
            }
        } else {
            if self.ports_ip4.len() == 0 {
                Vec::new()
            } else {
                bind_order(self.ports_ip4.len(), self.pos_ip4)
            }
        }
    }

    /// Records that the port at index `idx` of the family's pool was bound.
    pub fn mark_bound(&mut self, ipv6: bool, idx: usize)
        requires
            old(self).wf(),
            idx < old(self).ports(ipv6).len(),
        ensures
            final(self).wf(),
            final(self).position(ipv6) == idx,
            final(self).position(!ipv6) == old(self).position(!ipv6),
            final(self).ports(false) == old(self).ports(false),
            final(self).ports(true) == old(self).ports(true),
    {
        if ipv6 {
            self.pos_ip6 = idx;
        } else {
            self.pos_ip4 = idx;
        }
    }
}

/// A datagram that a sender prepared is read back by a receiver as it was written:
/// the receiver finds the test id in it, and reads the packet id and the send
/// time that went into it (the seconds read as a signed count).
pub proof fn lemma_packet_roundtrip(
    def: UdpTestDefinition,
    staged: Seq<u8>,
    sent: Seq<u8>,
    packet_id: u64,
    secs: u64,
    nanos: u32,
)
    requires
        def.length >= TEST_HEADER_SIZE,
        staged_packet_spec(def, staged),
        sent.len() == staged.len(),
        sent.subrange(0, 16) == staged.subrange(0, 16),
        sent.subrange(16, 24) == be_bytes(packet_id as nat, 8),
        sent.subrange(24, 32) == be_bytes(secs as nat, 8),
        sent.subrange(32, 36) == be_bytes(nanos as nat, 4),
    ensures
        sent.take(16) == def.test_id@,
        packet_id_of(sent) == packet_id,
        origin_seconds_of(sent) == secs as i64,
        origin_nanoseconds_of(sent) == nanos,
{
    crate::bytes::lemma_pow256_facts();
    crate::bytes::lemma_be_roundtrip(packet_id as nat, 8);
    crate::bytes::lemma_be_roundtrip(secs as nat, 8);
    crate::bytes::lemma_be_roundtrip(nanos as nat, 4);
    assert forall|i: int| 0 <= i < 16 implies sent.take(16)[i] == def.test_id@[i] by {
        assert(sent.subrange(0, 16)[i] == staged.subrange(0, 16)[i]);
        assert(staged[i] == def.test_id@[i]);
        assert(sent.take(16)[i] == sent[i]);
    }
    assert(sent.take(16) =~= def.test_id@);
}

/// A sender's datagrams carry consecutive ids over any number of calls: on a
/// fresh sender, where each `packet_sent` directly follows a `prepare_packet`, the
/// datagram that leaves at the `j`-th `packet_sent` (from zero) has the test's
/// length and test id, packet id `j`, the send time that the `prepare_packet`
/// before it staged, and the fixed filler after the header; and the sender's next
/// id is the number of datagrams that left.
pub proof fn lemma_sender_datagrams(senders: Seq<UdpSender>, calls: Seq<SenderCall>)
    requires
        senders.len() == calls.len() + 1,
        senders[0].next_packet_id == 0,
        senders[0].test_definition.length >= TEST_HEADER_SIZE,
        staged_packet_spec(senders[0].test_definition, senders[0].staged_packet@),
        forall|k: int| 0 <= k < calls.len() ==> sender_step(senders[k], #[trigger] calls[k], senders[k + 1]),
        forall|k: int| 0 <= k < calls.len() && #[trigger] calls[k] == SenderCall::Sent ==> k > 0 && calls[k - 1] is Prepare,
    ensures
        senders.last().next_packet_id == sent_count(calls),
        forall|k: int|
            0 <= k < calls.len() && #[trigger] calls[k] == SenderCall::Sent ==> {
                let d = senders[k].staged_packet@;
                let def = senders[0].test_definition;
                &&& d.len() == def.length
                &&& d.take(16) == def.test_id@
                &&& packet_id_of(d) == sent_count(calls.take(k))
                &&& origin_seconds_of(d) == staged_time(calls[k - 1]).0 as i64
                &&& origin_nanoseconds_of(d) == staged_time(calls[k - 1]).1
                &&& forall|i: int| TEST_HEADER_SIZE <= i < d.len() ==> #[trigger] d[i] == filler_byte(i)
            },
{
    let def = senders[0].test_definition;
    let s0 = senders[0].staged_packet@;
    lemma_sender_reaches(senders, calls, calls.len() as int);
    assert(calls.take(calls.len() as int) =~= calls);
    assert forall|k: int| 0 <= k < calls.len() && #[trigger] calls[k] == SenderCall::Sent implies {
        let d = senders[k].staged_packet@;
        &&& d.len() == def.length
        &&& d.take(16) == def.test_id@
        &&& packet_id_of(d) == sent_count(calls.take(k))
        &&& origin_seconds_of(d) == staged_time(calls[k - 1]).0 as i64
        &&& origin_nanoseconds_of(d) == staged_time(calls[k - 1]).1
        &&& forall|i: int| TEST_HEADER_SIZE <= i < d.len() ==> #[trigger] d[i] == filler_byte(i)
    } by {
        lemma_sender_reaches(senders, calls, k);
        let d = senders[k].staged_packet@;
        let (secs, nanos) = staged_time(calls[k - 1]);
        lemma_packet_roundtrip(def, s0, d, senders[k].next_packet_id, secs, nanos);
        assert forall|i: int| TEST_HEADER_SIZE <= i < d.len() implies #[trigger] d[i] == filler_byte(i) by {
            assert(d[i] == s0[i]);
        }
    }
}

proof fn lemma_sender_reaches(senders: Seq<UdpSender>, calls: Seq<SenderCall>, j: int)
    requires
        senders.len() == calls.len() + 1,
        senders[0].next_packet_id == 0,
        forall|k: int| 0 <= k < calls.len() ==> sender_step(senders[k], #[trigger] calls[k], senders[k + 1]),
        0 <= j <= calls.len(),
    ensures
        senders[j].test_definition == senders[0].test_definition,
        senders[j].staged_packet@.len() == senders[0].staged_packet@.len(),
        senders[j].staged_packet@.subrange(0, 16) == senders[0].staged_packet@.subrange(0, 16),
        forall|i: int|
            TEST_HEADER_SIZE <= i < senders[0].staged_packet@.len() ==> #[trigger] senders[j].staged_packet@[i]
                == senders[0].staged_packet@[i],
        senders[j].next_packet_id == sent_count(calls.take(j)),
        j > 0 && calls[j - 1] is Prepare ==> {
            let q = senders[j].staged_packet@;
            &&& q.subrange(16, 24) == be_bytes(senders[j].next_packet_id as nat, 8)
            &&& q.subrange(24, 32) == be_bytes(staged_time(calls[j - 1]).0 as nat, 8)
            &&& q.subrange(32, 36) == be_bytes(staged_time(calls[j - 1]).1 as nat, 4)
        },
    decreases j,
{
    if j == 0 {
        assert(calls.take(0) =~= Seq::<SenderCall>::empty());
    } else {
        lemma_sender_reaches(senders, calls, j - 1);
        assert(sender_step(senders[j - 1], calls[j - 1], senders[j]));
        assert(calls.take(j).drop_last() =~= calls.take(j - 1));
        assert(calls.take(j).last() == calls[j - 1]);
    }
}

/// Applies the ordering step to each id in turn.
pub open spec fn order_ids(next: u64, h: UdpReceiverIntervalHistory, ids: Seq<u64>) -> (
    u64,
    UdpReceiverIntervalHistory,
)
    decreases ids.len(),
{
    if ids.len() == 0 {
        (next, h)
    } else {
        let prev = order_ids(next, h, ids.drop_last());
        let step = ordering_next(prev.0, prev.1, ids.last());
        (step.0, step.1)
    }
}

/// What ordering `ids` from `next` meets: the packets skipped over by ids ahead of
/// the expected one, and the number of ids behind it.
pub open spec fn order_tally(next: u64, h: UdpReceiverIntervalHistory, ids: Seq<u64>) -> (int, int)
    decreases ids.len(),
{
    if ids.len() == 0 {
        (0, 0)
    } else {
        let expected = order_ids(next, h, ids.drop_last()).0;
        let t = order_tally(next, h, ids.drop_last());
        if ids.last() > expected {
            (t.0 + (ids.last() - expected), t.1)
        } else if ids.last() < expected {
            (t.0, t.1 + 1)
        } else {
            t
        }
    }
}

/// Whether every ordering step along `ids` stays within the counters' ranges and
/// every gap it skips over is an `i64`.
pub open spec fn order_steps_fit(next: u64, h: UdpReceiverIntervalHistory, ids: Seq<u64>) -> bool
    decreases ids.len(),
{
    if ids.len() == 0 {
        true
    } else {
        let prev = order_ids(next, h, ids.drop_last());
        &&& order_steps_fit(next, h, ids.drop_last())
        &&& ordering_defined(prev.0, prev.1, ids.last())
        &&& ids.last() - prev.0 <= i64::MAX
    }
}

/// The running totals of the ordering step: from a history with no losses, late
/// arrivals or duplicates, over any run of packet ids, losses never go negative,
/// losses and late arrivals together are the packets skipped over, and late
/// arrivals and duplicates together are the ids that came behind the expected one.
pub proof fn lemma_ordering_totals(next: u64, h: UdpReceiverIntervalHistory, ids: Seq<u64>)
    requires
        h.packets_lost == 0,
        h.packets_out_of_order == 0,
        h.packets_duplicated == 0,
        order_steps_fit(next, h, ids),
    ensures
        order_ids(next, h, ids).1.packets_lost >= 0,
        order_ids(next, h, ids).1.packets_lost + order_ids(next, h, ids).1.packets_out_of_order
            == order_tally(next, h, ids).0,
        order_ids(next, h, ids).1.packets_out_of_order + order_ids(next, h, ids).1.packets_duplicated
            == order_tally(next, h, ids).1,
    decreases ids.len(),
{
    if ids.len() > 0 {
        lemma_ordering_totals(next, h, ids.drop_last());
    }
}

/// Packets that arrive in order, starting from the id the receiver expects, are
/// counted as neither lost, late nor duplicated, and the receiver then expects the
/// id after the last of them.
pub proof fn lemma_in_order_arrival(start: u64, h: UdpReceiverIntervalHistory, n: nat)
    requires
        start + n < u64::MAX,
    ensures
        order_ids(start, h, Seq::new(n, |i: int| (start + i) as u64)) == ((start + n) as u64, h),
    decreases n,
{
    if n > 0 {
        let ids = Seq::new(n, |i: int| (start + i) as u64);
        assert(ids.drop_last() =~= Seq::new((n - 1) as nat, |i: int| (start + i) as u64));
        lemma_in_order_arrival(start, h, (n - 1) as nat);
    }
}

/// A packet that arrives again, with no loss outstanding, counts as a duplicate
/// and changes nothing else; while losses are outstanding, it counts as a late
/// arrival instead and settles one of them.
pub proof fn lemma_repeat_arrival(next: u64, h: UdpReceiverIntervalHistory, packet_id: u64)
    requires
        packet_id < next,
        h.packets_duplicated < u64::MAX,
        h.packets_out_of_order < u64::MAX,
    ensures
        h.packets_lost <= 0 ==> ordering_next(next, h, packet_id) == (
            next,
            UdpReceiverIntervalHistory { packets_duplicated: (h.packets_duplicated + 1) as u64, ..h },
            false,
        ),
        h.packets_lost > 0 ==> ordering_next(next, h, packet_id).1.packets_lost == h.packets_lost - 1
            && ordering_next(next, h, packet_id).1.packets_out_of_order == h.packets_out_of_order + 1,
{
}

} // verus!
