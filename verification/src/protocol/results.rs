use crate::text::{decimal, push_decimal, text_equals};
use vstd::prelude::*;
use std::collections::{HashMap, HashSet};
use vstd::string::*;

verus! {

/// What an interval result reports.
#[derive(Clone, Copy, Debug, PartialEq, Eq, Structural)]
pub enum IntervalResultKind {
    ClientDone,
    ClientFailed,
    ServerDone,
    ServerFailed,
    TcpReceive,
    TcpSend,
    UdpReceive,
    UdpSend,
}

/// The text that separates reported intervals.
pub open spec fn separator() -> Seq<char> {
    "----------\n"@
}

/// The tabular report of a completion result: a separator line, then `label`
/// followed by " | stream: " and the stream's index.
pub open spec fn completion_report(label: Seq<char>, stream_idx: u8) -> Seq<char> {
    separator() + label + " | stream: "@ + decimal(stream_idx as nat)
}

fn completion_text(label: &str, stream_idx: u8) -> (r: String)
    ensures
        r@ == completion_report(label@, stream_idx),
{
    let mut out = "----------\n".to_owned();
    out.append(label);
    out.append(" | stream: ");
    push_decimal(&mut out, stream_idx as u64);
    out
}

/// A client-side stream finished.
pub struct ClientDoneResult {
    pub stream_idx: u8,
}

impl ClientDoneResult {
    pub fn kind(&self) -> (r: IntervalResultKind)
        ensures
            r == IntervalResultKind::ClientDone,
    {
        IntervalResultKind::ClientDone
    }

    pub fn get_stream_idx(&self) -> (r: u8)
        ensures
            r == self.stream_idx,
    {
        self.stream_idx
    }

    /// The result in tabular form (the same whatever the unit).
    pub fn to_string(&self, _bit: bool) -> (r: String)
        ensures
            r@ == completion_report("End of stream from client"@, self.stream_idx),
    {
        completion_text("End of stream from client", self.stream_idx)
    }
}

/// A server-side stream finished.
pub struct ServerDoneResult {
    pub stream_idx: u8,
}

impl ServerDoneResult {
    pub fn kind(&self) -> (r: IntervalResultKind)
        ensures
            r == IntervalResultKind::ServerDone,
    {
        IntervalResultKind::ServerDone
    }

    pub fn get_stream_idx(&self) -> (r: u8)
        ensures
            r == self.stream_idx,
    {
        self.stream_idx
    }

    /// The result in tabular form (the same whatever the unit).
    pub fn to_string(&self, _bit: bool) -> (r: String)
        ensures
            r@ == completion_report("End of stream from server"@, self.stream_idx),
    {
        completion_text("End of stream from server", self.stream_idx)
    }
}

/// A client-side stream failed.
pub struct ClientFailedResult {
    pub stream_idx: u8,
}

impl ClientFailedResult {
    pub fn kind(&self) -> (r: IntervalResultKind)
        ensures
            r == IntervalResultKind::ClientFailed,
    {
        IntervalResultKind::ClientFailed
    }

    pub fn get_stream_idx(&self) -> (r: u8)
        ensures
            r == self.stream_idx,
    {
        self.stream_idx
    }

    /// The result in tabular form (the same whatever the unit).
    pub fn to_string(&self, _bit: bool) -> (r: String)
        ensures
            r@ == completion_report("Failure in client stream"@, self.stream_idx),
    {
        completion_text("Failure in client stream", self.stream_idx)
    }
}

/// A server-side stream failed.
pub struct ServerFailedResult {
    pub stream_idx: u8,
}

impl ServerFailedResult {
    pub fn kind(&self) -> (r: IntervalResultKind)
        ensures
            r == IntervalResultKind::ServerFailed,
    {
        IntervalResultKind::ServerFailed
    }

    pub fn get_stream_idx(&self) -> (r: u8)
        ensures
            r == self.stream_idx,
    {
        self.stream_idx
    }

    /// The result in tabular form (the same whatever the unit).
    pub fn to_string(&self, _bit: bool) -> (r: String)
        ensures
            r@ == completion_report("Failure in server stream"@, self.stream_idx),
    {
        completion_text("Failure in server stream", self.stream_idx)
    }
}

// The interval results below carry their time values (a UNIX timestamp and the
// interval's length in seconds, both measured as floating-point numbers) as the
// bit patterns of those numbers: the library passes them through unread.

/// Bytes received over one interval of a TCP stream.
#[derive(Clone, Copy, Debug, PartialEq, Eq)]
pub struct TcpReceiveResult {
    /// The bits of the `f64` UNIX timestamp at which the interval ended.
    pub timestamp_bits: u64,
    pub stream_idx: u8,
    /// The bits of the `f32` length of the interval, in seconds.
    pub duration_bits: u32,
    pub bytes_received: u64,
}

/// Bytes sent over one interval of a TCP stream.
#[derive(Clone, Copy, Debug, PartialEq, Eq)]
pub struct TcpSendResult {
    pub timestamp_bits: u64,
    pub stream_idx: u8,
    pub duration_bits: u32,
    pub bytes_sent: u64,
}

/// What one interval of a UDP stream received.
#[derive(Clone, Copy, Debug, PartialEq, Eq)]
pub struct UdpReceiveResult {
    pub timestamp_bits: u64,
    pub stream_idx: u8,
    pub duration_bits: u32,
    pub bytes_received: u64,
    pub packets_received: u64,
    pub packets_lost: i64,
    pub packets_out_of_order: u64,
    pub packets_duplicated: u64,
    /// The longest run of packets received in order.
    pub unbroken_sequence: u64,
    /// The bits of the `f32` jitter, in seconds, over that run, where it was measured.
    pub jitter_bits: Option<u32>,
}

/// What one interval of a UDP stream sent.
#[derive(Clone, Copy, Debug, PartialEq, Eq)]
pub struct UdpSendResult {
    pub timestamp_bits: u64,
    pub stream_idx: u8,
    pub duration_bits: u32,
    pub bytes_sent: u64,
    pub packets_sent: u64,
}

impl TcpReceiveResult {
    pub fn kind(&self) -> (r: IntervalResultKind)
        ensures
            r == IntervalResultKind::TcpReceive,
    {
        IntervalResultKind::TcpReceive
    }

    pub fn get_stream_idx(&self) -> (r: u8)
        ensures
            r == self.stream_idx,
    {
        self.stream_idx
    }
}

impl TcpSendResult {
    pub fn kind(&self) -> (r: IntervalResultKind)
        ensures
            r == IntervalResultKind::TcpSend,
    {
        IntervalResultKind::TcpSend
    }

    pub fn get_stream_idx(&self) -> (r: u8)
        ensures
            r == self.stream_idx,
    {
        self.stream_idx
    }
}

impl UdpReceiveResult {
    pub fn kind(&self) -> (r: IntervalResultKind)
        ensures
            r == IntervalResultKind::UdpReceive,
    {
        IntervalResultKind::UdpReceive
    }

    pub fn get_stream_idx(&self) -> (r: u8)
        ensures
            r == self.stream_idx,
    {
        self.stream_idx
    }
}

impl UdpSendResult {
    pub fn kind(&self) -> (r: IntervalResultKind)
        ensures
            r == IntervalResultKind::UdpSend,
    {
        IntervalResultKind::UdpSend
    }

    pub fn get_stream_idx(&self) -> (r: u8)
        ensures
            r == self.stream_idx,
    {
        self.stream_idx
    }
}

/// A field of a JSON message, as far as a text field is read.
pub enum TextField {
    Absent,
    NotText,
    Text(String),
}

/// A field of a JSON message, as far as an integer field is read.
#[derive(Clone, Copy, Debug, PartialEq, Eq)]
pub enum IntegerField {
    Absent,
    NotInteger,
    Integer(i64),
}

/// Why an interval result was not accepted.
#[derive(Debug, PartialEq, Eq)]
pub enum ResultError {
    NoFamily,
    FamilyNotText,
    UnsupportedFamily(String),
    NoKind,
    KindNotText,
    UnsupportedKind(String),
    NoStreamIndex,
    StreamIndexNotInteger,
    UnknownStreamIndex(i64),
}

pub open spec fn text_of(field: TextField) -> Option<Seq<char>> {
    match field {
        TextField::Text(s) => Some(s@),
        _ => None,
    }
}

/// The kind of interval result that a message with the given `family` and `kind`
/// fields describes: the family is "tcp" or "udp", the kind "receive" or "send".
pub open spec fn interval_kind_of(family: TextField, kind: TextField) -> Result<IntervalResultKind, ()> {
    match (family, kind) {
        (TextField::Text(f), TextField::Text(k)) => if f@ == "tcp"@ && k@ == "receive"@ {
            Ok(IntervalResultKind::TcpReceive)
        } else if f@ == "tcp"@ && k@ == "send"@ {
            Ok(IntervalResultKind::TcpSend)
        } else if f@ == "udp"@ && k@ == "receive"@ {
            Ok(IntervalResultKind::UdpReceive)
        } else if f@ == "udp"@ && k@ == "send"@ {
            Ok(IntervalResultKind::UdpSend)
        } else {
            Err(())
        },
        _ => Err(()),
    }
}

/// Decides which kind of interval result a message holds, from its `family` and
/// `kind` fields; the family is checked first.
pub fn interval_result_kind_from_fields(family: &TextField, kind: &TextField) -> (r: Result<
    IntervalResultKind,
    ResultError,
>)
    ensures
        match *family {
            TextField::Absent => r == Err::<IntervalResultKind, ResultError>(ResultError::NoFamily),
            TextField::NotText => r == Err::<IntervalResultKind, ResultError>(
                ResultError::FamilyNotText,
            ),
            TextField::Text(f) => if f@ != "tcp"@ && f@ != "udp"@ {
                r matches Err(ResultError::UnsupportedFamily(g)) && g@ == f@
            } else {
                match *kind {
                    TextField::Absent => r == Err::<IntervalResultKind, ResultError>(
                        ResultError::NoKind,
                    ),
                    TextField::NotText => r == Err::<IntervalResultKind, ResultError>(
                        ResultError::KindNotText,
                    ),
                    TextField::Text(k) => if k@ != "receive"@ && k@ != "send"@ {
                        r matches Err(ResultError::UnsupportedKind(g)) && g@ == k@
                    } else {
                        r == Ok::<IntervalResultKind, ResultError>(
                            interval_kind_of(*family, *kind)->Ok_0,
                        ) && interval_kind_of(*family, *kind) is Ok
                    },
                }
            },
        },
{
    let f = match family {
        TextField::Absent => {
            return Err(ResultError::NoFamily);
        },
        TextField::NotText => {
            return Err(ResultError::FamilyNotText);
        },
        TextField::Text(f) => f,
    };
    let tcp = text_equals(f.as_str(), "tcp");
    let udp = text_equals(f.as_str(), "udp");
    if !tcp && !udp {
        return Err(ResultError::UnsupportedFamily(f.clone()));
    }
    let k = match kind {
        TextField::Absent => {
            return Err(ResultError::NoKind);
        },
        TextField::NotText => {
            return Err(ResultError::KindNotText);
        },
        TextField::Text(k) => k,
    };
    let receive = text_equals(k.as_str(), "receive");
    let send = text_equals(k.as_str(), "send");
    if receive {
        if tcp {
            Ok(IntervalResultKind::TcpReceive)
        } else {
            Ok(IntervalResultKind::UdpReceive)
        }
    } else if send {
        if tcp {
            Ok(IntervalResultKind::TcpSend)
        } else {
            Ok(IntervalResultKind::UdpSend)
        }
    } else {
        Err(ResultError::UnsupportedKind(k.clone()))
    }
}

/// The sum of `f` over the elements of `s` from index `omit` on: the first `omit`
/// intervals of a stream are left out of its totals.
pub open spec fn sum_field<T>(s: Seq<T>, omit: int, f: spec_fn(T) -> int) -> int
    decreases s.len(),
{
    if s.len() == 0 {
        0
    } else {
        sum_field(s.drop_last(), omit, f) + (if s.len() - 1 >= omit {
            f(s.last())
        } else {
            0
        })
    }
}

pub proof fn lemma_sum_field_step<T>(s: Seq<T>, omit: int, f: spec_fn(T) -> int, i: int)
    requires
        0 <= i < s.len(),
    ensures
        sum_field(s.take(i + 1), omit, f) == sum_field(s.take(i), omit, f) + (if i >= omit {
            f(s[i])
        } else {
            0
        }),
{
    assert(s.take(i + 1).drop_last() =~= s.take(i));
}

pub proof fn lemma_sum_field_prefix_le<T>(s: Seq<T>, omit: int, f: spec_fn(T) -> int, i: int)
    requires
        0 <= i <= s.len(),
        forall|x: T| #[trigger] f(x) >= 0,
    ensures
        0 <= sum_field(s.take(i), omit, f) <= sum_field(s, omit, f),
    decreases s.len() - i,
{
    if i < s.len() {
        lemma_sum_field_prefix_le(s, omit, f, i + 1);
        lemma_sum_field_step(s, omit, f, i);
        lemma_sum_field_nonneg(s.take(i), omit, f);
        assert(f(s[i]) >= 0);
    } else {
        assert(s.take(i) =~= s);
        lemma_sum_field_nonneg(s, omit, f);
    }
}

pub proof fn lemma_sum_field_nonneg<T>(s: Seq<T>, omit: int, f: spec_fn(T) -> int)
    requires
        forall|x: T| #[trigger] f(x) >= 0,
    ensures
        sum_field(s, omit, f) >= 0,
    decreases s.len(),
{
    if s.len() > 0 {
        lemma_sum_field_nonneg(s.drop_last(), omit, f);
    }
}

/// Intervals before index `omit` add nothing to a total.
pub proof fn lemma_sum_field_all_omitted<T>(s: Seq<T>, omit: int, f: spec_fn(T) -> int)
    requires
        s.len() <= omit,
    ensures
        sum_field(s, omit, f) == 0,
    decreases s.len(),
{
    if s.len() > 0 {
        lemma_sum_field_all_omitted(s.drop_last(), omit, f);
    }
}

/// Leaving out the first `omit` intervals is summing the rest: a total counts
/// exactly the intervals from index `omit` on.
pub proof fn lemma_sum_field_skips<T>(s: Seq<T>, omit: int, f: spec_fn(T) -> int)
    requires
        0 <= omit <= s.len(),
    ensures
        sum_field(s, omit, f) == sum_field(s.skip(omit), 0, f),
    decreases s.len(),
{
    if s.len() == omit {
        lemma_sum_field_all_omitted(s, omit, f);
        assert(s.skip(omit) =~= Seq::<T>::empty());
    } else {
        lemma_sum_field_skips(s.drop_last(), omit, f);
        assert(s.skip(omit).drop_last() =~= s.drop_last().skip(omit));
        assert(s.skip(omit).last() == s.last());
    }
}

/// Leaving out more intervals never raises a total.
pub proof fn lemma_sum_field_omit_monotone<T>(s: Seq<T>, k1: int, k2: int, f: spec_fn(T) -> int)
    requires
        k1 <= k2,
        forall|x: T| #[trigger] f(x) >= 0,
    ensures
        sum_field(s, k2, f) <= sum_field(s, k1, f),
    decreases s.len(),
{
    if s.len() > 0 {
        lemma_sum_field_omit_monotone(s.drop_last(), k1, k2, f);
        assert(f(s.last()) >= 0);
    }
}

/// The sum of `g` over the streams of `m` with index below `k`.
pub open spec fn streams_total<S>(m: Map<u8, S>, g: spec_fn(S) -> int, k: int) -> int
    decreases k,
{
    if k <= 0 {
        0
    } else {
        streams_total(m, g, k - 1) + (if m.contains_key((k - 1) as u8) {
            g(m[(k - 1) as u8])
        } else {
            0
        })
    }
}

pub proof fn lemma_streams_total_le<S>(m: Map<u8, S>, g: spec_fn(S) -> int, k: int, j: int)
    requires
        0 <= k <= j,
        forall|x: S| #[trigger] g(x) >= 0,
    ensures
        0 <= streams_total(m, g, k) <= streams_total(m, g, j),
    decreases j - k,
{
    if k < j {
        lemma_streams_total_le(m, g, k, j - 1);
    } else {
        lemma_streams_total_nonneg(m, g, k);
    }
}

pub proof fn lemma_streams_total_nonneg<S>(m: Map<u8, S>, g: spec_fn(S) -> int, k: int)
    requires
        forall|x: S| #[trigger] g(x) >= 0,
    ensures
        streams_total(m, g, k) >= 0,
    decreases k,
{
    if k > 0 {
        lemma_streams_total_nonneg(m, g, k - 1);
    }
}

/// A sum over the streams grows with what it sums.
pub proof fn lemma_streams_total_pointwise<S>(m: Map<u8, S>, g1: spec_fn(S) -> int, g2: spec_fn(S) -> int, k: int)
    requires
        forall|x: S| #[trigger] g1(x) <= g2(x),
    ensures
        streams_total(m, g1, k) <= streams_total(m, g2, k),
    decreases k,
{
    if k > 0 {
        lemma_streams_total_pointwise(m, g1, g2, k - 1);
        if m.contains_key((k - 1) as u8) {
            assert(g1(m[(k - 1) as u8]) <= g2(m[(k - 1) as u8]));
        }
    }
}

pub open spec fn tcp_bytes_sent() -> spec_fn(TcpSendResult) -> int {
    |r: TcpSendResult| r.bytes_sent as int
}

pub open spec fn tcp_bytes_received() -> spec_fn(TcpReceiveResult) -> int {
    |r: TcpReceiveResult| r.bytes_received as int
}

/// The interval results of one TCP stream, in the order they came.
pub struct TcpStreamResults {
    pub receive_results: Vec<TcpReceiveResult>,
    pub send_results: Vec<TcpSendResult>,
}

/// The byte totals of a TCP stream or test.
#[derive(Clone, Copy, Debug, PartialEq, Eq)]
pub struct TcpSummary {
    pub bytes_sent: u64,
    pub bytes_received: u64,
}

pub open spec fn tcp_stream_sent(omit: int) -> spec_fn(TcpStreamResults) -> int {
    |s: TcpStreamResults| sum_field(s.send_results@, omit, tcp_bytes_sent())
}

pub open spec fn tcp_stream_received(omit: int) -> spec_fn(TcpStreamResults) -> int {
    |s: TcpStreamResults| sum_field(s.receive_results@, omit, tcp_bytes_received())
}

impl TcpStreamResults {
    pub fn new() -> (r: TcpStreamResults)
        ensures
            r.receive_results@.len() == 0,
            r.send_results@.len() == 0,
    {
        TcpStreamResults { receive_results: Vec::new(), send_results: Vec::new() }
    }

    /// Whether the totals of the stream, leaving out its first `omit` intervals, fit a `u64`.
    pub open spec fn totals_fit(&self, omit: int) -> bool {
        &&& tcp_stream_sent(omit)(*self) <= u64::MAX
        &&& tcp_stream_received(omit)(*self) <= u64::MAX
    }

    /// The bytes sent and received by the stream, leaving out its first `omit`
    /// intervals; `None` when a total does not fit a `u64`.
    pub fn summary(&self, omit: usize) -> (r: Option<TcpSummary>)
        ensures
            r is Some <==> self.totals_fit(omit as int),
            r matches Some(s) ==> s.bytes_sent == tcp_stream_sent(omit as int)(*self)
                && s.bytes_received == tcp_stream_received(omit as int)(*self),
    {
        let bytes_sent = match total_of(&self.send_results, omit, tcp_send_bytes, Ghost(tcp_bytes_sent())) {
            Some(t) => t,
            None => {
                return None;
            },
        };
        let bytes_received = match total_of(&self.receive_results, omit, tcp_receive_bytes, Ghost(tcp_bytes_received())) {
            Some(t) => t,
            None => {
                return None;
            },
        };
        Some(TcpSummary { bytes_sent, bytes_received })
    }
}

fn tcp_send_bytes(r: &TcpSendResult) -> (v: u64)
    ensures
        v == tcp_bytes_sent()(*r),
{
    r.bytes_sent
}

fn tcp_receive_bytes(r: &TcpReceiveResult) -> (v: u64)
    ensures
        v == tcp_bytes_received()(*r),
{
    r.bytes_received
}

fn udp_send_bytes(r: &UdpSendResult) -> (v: u64)
    ensures
        v == udp_bytes_sent()(*r),
{
    r.bytes_sent
}

fn udp_send_packets(r: &UdpSendResult) -> (v: u64)
    ensures
        v == udp_packets_sent()(*r),
{
    r.packets_sent
}

fn udp_receive_bytes(r: &UdpReceiveResult) -> (v: u64)
    ensures
        v == udp_bytes_received()(*r),
{
    r.bytes_received
}

fn udp_receive_packets(r: &UdpReceiveResult) -> (v: u64)
    ensures
        v == udp_packets_received()(*r),
{
    r.packets_received
}

fn udp_receive_out_of_order(r: &UdpReceiveResult) -> (v: u64)
    ensures
        v == udp_packets_out_of_order()(*r),
{
    r.packets_out_of_order
}

fn udp_receive_duplicated(r: &UdpReceiveResult) -> (v: u64)
    ensures
        v == udp_packets_duplicated()(*r),
{
    r.packets_duplicated
}

fn udp_receive_jitter_run(r: &UdpReceiveResult) -> (v: u64)
    ensures
        v == udp_jitter_sequence()(*r),
{
    match r.jitter_bits {
        Some(_) => r.unbroken_sequence,
        None => 0,
    }
}

/// The sum of `f` over `items` from index `omit` on, where it fits a `u64`; `get`
/// reads `f` of an item.
fn total_of<T, F: Fn(&T) -> u64>(items: &Vec<T>, omit: usize, get: F, Ghost(f): Ghost<spec_fn(T) -> int>) -> (r: Option<u64>)
    requires
        forall|x: T| #[trigger] f(x) >= 0,
        forall|x: &T| #[trigger] get.requires((x,)),
        forall|x: &T, v: u64| #[trigger] get.ensures((x,), v) ==> v == f(*x),
    ensures
        sum_field(items@, omit as int, f) <= u64::MAX ==> r is Some,
        r matches Some(v) ==> v == sum_field(items@, omit as int, f),
{
    let mut acc: u64 = 0;
    let n = items.len();
    proof {
        assert(items@.take(0) =~= Seq::<T>::empty());
    }
    for i in 0..n
        invariant
            n == items@.len(),
            acc == sum_field(items@.take(i as int), omit as int, f),
            forall|x: T| #[trigger] f(x) >= 0,
            forall|x: &T| #[trigger] get.requires((x,)),
            forall|x: &T, v: u64| #[trigger] get.ensures((x,), v) ==> v == f(*x),
    {
        proof {
            lemma_sum_field_step(items@, omit as int, f, i as int);
            lemma_sum_field_prefix_le(items@, omit as int, f, i + 1);
        }
        if i >= omit {
            let v: u64 = get(&items[i]);
            match acc.checked_add(v) {
                Some(a) => {
                    acc = a;
                },
                None => {
                    return None;
                },
            }
        }
    }
    proof {
        assert(items@.take(n as int) =~= items@);
    }
    Some(acc)
}

/// Whether any interval from index `omit` on measured jitter.
fn any_jitter(items: &Vec<UdpReceiveResult>, omit: usize) -> (r: bool)
    ensures
        r == (sum_field(items@, omit as int, udp_jitter_measured()) > 0),
{
    let mut found = false;
    let n = items.len();
    proof {
        assert(items@.take(0) =~= Seq::<UdpReceiveResult>::empty());
        assert forall|x: UdpReceiveResult| #[trigger] udp_jitter_measured()(x) >= 0 by {}
    }
    for i in 0..n
        invariant
            n == items@.len(),
            found == (sum_field(items@.take(i as int), omit as int, udp_jitter_measured()) > 0),
            forall|x: UdpReceiveResult| #[trigger] udp_jitter_measured()(x) >= 0,
    {
        proof {
            lemma_sum_field_step(items@, omit as int, udp_jitter_measured(), i as int);
            lemma_sum_field_nonneg(items@.take(i as int), omit as int, udp_jitter_measured());
        }
        if i >= omit && items[i].jitter_bits.is_some() {
            found = true;
        }
    }
    proof {
        assert(items@.take(n as int) =~= items@);
    }
    found
}

/// The number of stream indices below `n` that are prepared but that the server
/// has not reported finished.
pub open spec fn unfinished_below(prepared: Set<u8>, finished: Set<u8>, n: int) -> int
    decreases n,
{
    if n <= 0 {
        0
    } else {
        unfinished_below(prepared, finished, n - 1) + (if prepared.contains((n - 1) as u8)
            && !finished.contains((n - 1) as u8) {
            1int
        } else {
            0int
        })
    }
}

/// The bookkeeping of a test's streams that the client's decisions read: which
/// streams were prepared, are still pending, failed, or were reported finished by
/// the server.
pub trait TestResults {
    spec fn prepared_streams(&self) -> Set<u8>;

    spec fn pending_streams(&self) -> Set<u8>;

    spec fn failed_streams(&self) -> Set<u8>;

    spec fn server_finished_streams(&self) -> Set<u8>;

    /// The number of streams still pending on the client's side (as a `u8`, so
    /// 256 pending streams count as none).
    fn count_in_progress_streams(&self) -> (r: u8)
        ensures
            r == self.pending_streams().len() as u8,
    ;

    /// Records that stream `idx` finished on the client's side; an unsuccessful
    /// stream is also recorded as failed.
    fn mark_stream_done(&mut self, idx: &u8, success: bool)
        ensures
            final(self).pending_streams() == old(self).pending_streams().remove(*idx),
            final(self).failed_streams() == (if success {
                old(self).failed_streams()
            } else {
                old(self).failed_streams().insert(*idx)
            }),
            final(self).prepared_streams() == old(self).prepared_streams(),
            final(self).server_finished_streams() == old(self).server_finished_streams(),
            (
                final(self).prepared_streams(),
                final(self).pending_streams(),
                final(self).failed_streams(),
                final(self).server_finished_streams(),
            ) == book_step(
                (
                    old(self).prepared_streams(),
                    old(self).pending_streams(),
                    old(self).failed_streams(),
                    old(self).server_finished_streams(),
                ),
                StreamEvent::Done(*idx, success),
            ),
    ;

    /// The number of prepared streams that the server has not reported finished.
    fn count_in_progress_streams_server(&self) -> (r: u8)
        requires
            unfinished_below(self.prepared_streams(), self.server_finished_streams(), 256) < 256,
        ensures
            r == unfinished_below(self.prepared_streams(), self.server_finished_streams(), 256),
    ;

    /// Records that the server reported stream `idx` finished.
    fn mark_stream_done_server(&mut self, idx: &u8)
        ensures
            final(self).server_finished_streams() == old(self).server_finished_streams().insert(*idx),
            final(self).prepared_streams() == old(self).prepared_streams(),
            final(self).pending_streams() == old(self).pending_streams(),
            final(self).failed_streams() == old(self).failed_streams(),
            (
                final(self).prepared_streams(),
                final(self).pending_streams(),
                final(self).failed_streams(),
                final(self).server_finished_streams(),
            ) == book_step(
                (
                    old(self).prepared_streams(),
                    old(self).pending_streams(),
                    old(self).failed_streams(),
                    old(self).server_finished_streams(),
                ),
                StreamEvent::ServerDone(*idx),
            ),
    ;

    /// The test succeeded when no stream is pending and none failed.
    fn is_success(&self) -> (r: bool)
        ensures
            r == (self.pending_streams().len() == 0 && self.failed_streams().len() == 0),
    ;
}

/// The results of a TCP test: each stream's interval results, and which streams
/// are still running, have failed, or were reported finished by the server.
pub struct TcpTestResults {
    stream_results: HashMap<u8, TcpStreamResults>,
    pending_tests: HashSet<u8>,
    failed_tests: HashSet<u8>,
    server_tests_finished: HashSet<u8>,
}

impl TcpTestResults {
    /// The streams prepared so far, by index.
    pub closed spec fn streams(&self) -> Map<u8, TcpStreamResults> {
        self.stream_results@
    }

    /// The streams that have not finished on the client's side.
    pub closed spec fn pending(&self) -> Set<u8> {
        self.pending_tests@
    }

    /// The streams that failed.
    pub closed spec fn failed(&self) -> Set<u8> {
        self.failed_tests@
    }

    /// The streams that the server reported finished.
    pub closed spec fn server_finished(&self) -> Set<u8> {
        self.server_tests_finished@
    }

    /// Results with no streams.
    pub fn new() -> (r: TcpTestResults)
        ensures
            r.streams() == Map::<u8, TcpStreamResults>::empty(),
            r.pending() == Set::<u8>::empty(),
            r.failed() == Set::<u8>::empty(),
            r.server_finished() == Set::<u8>::empty(),
            bookkeeping(r) == book_after(Seq::empty()),
    {
        TcpTestResults {
            stream_results: HashMap::new(),
            pending_tests: HashSet::new(),
            failed_tests: HashSet::new(),
            server_tests_finished: HashSet::new(),
        }
    }

    /// Starts tracking stream `idx`: it has no results yet and is pending.
    pub fn prepare_index(&mut self, idx: &u8)
        ensures
            final(self).streams().dom() == old(self).streams().dom().insert(*idx),
            final(self).streams()[*idx].receive_results@.len() == 0,
            final(self).streams()[*idx].send_results@.len() == 0,
            forall|k: u8| #[trigger] old(self).streams().contains_key(k) && k != *idx ==> final(self).streams()[k] == old(self).streams()[k],
            final(self).pending() == old(self).pending().insert(*idx),
            final(self).failed() == old(self).failed(),
            final(self).server_finished() == old(self).server_finished(),
            bookkeeping(*final(self)) == book_step(bookkeeping(*old(self)), StreamEvent::Prepare(*idx)),
    {
        broadcast use vstd::std_specs::hash::group_hash_axioms;

        self.stream_results.insert(*idx, TcpStreamResults::new());
        self.pending_tests.insert(*idx);
    }

}

pub proof fn lemma_unfinished_below_le(prepared: Set<u8>, finished: Set<u8>, k: int, j: int)
    requires
        0 <= k <= j,
    ensures
        unfinished_below(prepared, finished, k) <= unfinished_below(prepared, finished, j),
    decreases j - k,
{
    if k < j {
        lemma_unfinished_below_le(prepared, finished, k, j - 1);
    }
}

impl TcpTestResults {
    /// Where an interval result reported with the given `family`, `stream_idx` and
    /// `kind` fields goes: the family must be "tcp", the index (taken modulo 256)
    /// one of a prepared stream, and the kind "send" or "receive"; checked in that order.
    pub fn route_update(&self, family: &TextField, stream_idx: &IntegerField, kind: &TextField) -> (r:
        Result<(u8, IntervalResultKind), ResultError>)
        ensures
            match *family {
                TextField::Absent => r == Err::<(u8, IntervalResultKind), ResultError>(
                    ResultError::NoFamily,
                ),
                TextField::NotText => r == Err::<(u8, IntervalResultKind), ResultError>(
                    ResultError::FamilyNotText,
                ),
                TextField::Text(f) => if f@ != "tcp"@ {
                    r matches Err(ResultError::UnsupportedFamily(g)) && g@ == f@
                } else {
                    match *stream_idx {
                        IntegerField::Absent => r == Err::<(u8, IntervalResultKind), ResultError>(
                            ResultError::NoStreamIndex,
                        ),
                        IntegerField::NotInteger => r == Err::<
                            (u8, IntervalResultKind),
                            ResultError,
                        >(ResultError::StreamIndexNotInteger),
                        IntegerField::Integer(i) => if !self.streams().contains_key(i as u8) {
                            r == Err::<(u8, IntervalResultKind), ResultError>(
                                ResultError::UnknownStreamIndex(i),
                            )
                        } else {
                            match *kind {
                                TextField::Absent => r == Err::<
                                    (u8, IntervalResultKind),
                                    ResultError,
                                >(ResultError::NoKind),
                                TextField::NotText => r == Err::<
                                    (u8, IntervalResultKind),
                                    ResultError,
                                >(ResultError::KindNotText),
                                TextField::Text(k) => if k@ == "send"@ {
                                    r == Ok::<(u8, IntervalResultKind), ResultError>(
                                        (i as u8, IntervalResultKind::TcpSend),
                                    )
                                } else if k@ == "receive"@ {
                                    r == Ok::<(u8, IntervalResultKind), ResultError>(
                                        (i as u8, IntervalResultKind::TcpReceive),
                                    )
                                } else {
                                    r matches Err(ResultError::UnsupportedKind(g)) && g@ == k@
                                },
                            }
                        },
                    }
                },
            },
    {
        broadcast use vstd::std_specs::hash::group_hash_axioms;

        let f = match family {
            TextField::Absent => {
                return Err(ResultError::NoFamily);
            },
            TextField::NotText => {
                return Err(ResultError::FamilyNotText);
            },
            TextField::Text(f) => f,
        };
        if !text_equals(f.as_str(), "tcp") {
            return Err(ResultError::UnsupportedFamily(f.clone()));
        }
        let i = match stream_idx {
            IntegerField::Absent => {
                return Err(ResultError::NoStreamIndex);
            },
            IntegerField::NotInteger => {
                return Err(ResultError::StreamIndexNotInteger);
            },
            IntegerField::Integer(i) => *i,
        };
        let idx = i as u8;
        if !self.stream_results.contains_key(&idx) {
            return Err(ResultError::UnknownStreamIndex(i));
        }
        let k = match kind {
            TextField::Absent => {
                return Err(ResultError::NoKind);
            },
            TextField::NotText => {
                return Err(ResultError::KindNotText);
            },
            TextField::Text(k) => k,
        };
        if text_equals(k.as_str(), "send") {
            Ok((idx, IntervalResultKind::TcpSend))
        } else if text_equals(k.as_str(), "receive") {
            Ok((idx, IntervalResultKind::TcpReceive))
        } else {
            Err(ResultError::UnsupportedKind(k.clone()))
        }
    }

    /// Appends a send result to the results of stream `idx`.
    pub fn record_send(&mut self, idx: u8, result: TcpSendResult)
        requires
            old(self).streams().contains_key(idx),
        ensures
            final(self).streams().dom() == old(self).streams().dom(),
            final(self).streams()[idx].send_results@ == old(self).streams()[idx].send_results@.push(
                result,
            ),
            final(self).streams()[idx].receive_results@ == old(self).streams()[idx].receive_results@,
            forall|k: u8| #[trigger] old(self).streams().contains_key(k) && k != idx ==> final(self).streams()[k] == old(self).streams()[k],
            final(self).pending() == old(self).pending(),
            final(self).failed() == old(self).failed(),
            final(self).server_finished() == old(self).server_finished(),
            bookkeeping(*final(self)) == book_step(bookkeeping(*old(self)), StreamEvent::Record(idx)),
    {
        broadcast use vstd::std_specs::hash::group_hash_axioms;

        let mut stream = self.stream_results.remove(&idx).unwrap();
        stream.send_results.push(result);
        self.stream_results.insert(idx, stream);
        assert(self.stream_results@.dom() =~= old(self).stream_results@.dom());
    }

    /// Appends a receive result to the results of stream `idx`.
    pub fn record_receive(&mut self, idx: u8, result: TcpReceiveResult)
        requires
            old(self).streams().contains_key(idx),
        ensures
            final(self).streams().dom() == old(self).streams().dom(),
            final(self).streams()[idx].receive_results@ == old(self).streams()[idx].receive_results@.push(result),
            final(self).streams()[idx].send_results@ == old(self).streams()[idx].send_results@,
            forall|k: u8| #[trigger] old(self).streams().contains_key(k) && k != idx ==> final(self).streams()[k] == old(self).streams()[k],
            final(self).pending() == old(self).pending(),
            final(self).failed() == old(self).failed(),
            final(self).server_finished() == old(self).server_finished(),
            bookkeeping(*final(self)) == book_step(bookkeeping(*old(self)), StreamEvent::Record(idx)),
    {
        broadcast use vstd::std_specs::hash::group_hash_axioms;

        let mut stream = self.stream_results.remove(&idx).unwrap();
        stream.receive_results.push(result);
        self.stream_results.insert(idx, stream);
        assert(self.stream_results@.dom() =~= old(self).stream_results@.dom());
    }

    /// The results of stream `idx`, where it was prepared.
    pub fn stream(&self, idx: u8) -> (r: Option<&TcpStreamResults>)
        ensures
            self.streams().contains_key(idx) ==> r == Some(&self.streams()[idx]),
            !self.streams().contains_key(idx) ==> r is None,
    {
        broadcast use vstd::std_specs::hash::group_hash_axioms;

        self.stream_results.get(&idx)
    }

    /// Whether stream `idx` is still pending (reported as abandoned).
    pub fn is_pending(&self, idx: u8) -> (r: bool)
        ensures
            r == self.pending().contains(idx),
    {
        broadcast use vstd::std_specs::hash::group_hash_axioms;

        self.pending_tests.contains(&idx)
    }

    /// Whether stream `idx` failed.
    pub fn is_failed(&self, idx: u8) -> (r: bool)
        ensures
            r == self.failed().contains(idx),
    {
        broadcast use vstd::std_specs::hash::group_hash_axioms;

        self.failed_tests.contains(&idx)
    }

    /// The number of streams prepared.
    pub fn stream_count(&self) -> (r: usize)
        ensures
            r == self.streams().len(),
    {
        broadcast use vstd::std_specs::hash::group_hash_axioms;

        self.stream_results.len()
    }

    /// Whether the totals over all streams fit a `u64`.
    pub open spec fn totals_fit(&self, omit: int) -> bool {
        &&& streams_total(self.streams(), tcp_stream_sent(omit), 256) <= u64::MAX
        &&& streams_total(self.streams(), tcp_stream_received(omit), 256) <= u64::MAX
    }

    /// The bytes sent and received over all streams, each stream leaving out its
    /// first `omit` intervals; `None` when a total does not fit a `u64`.
    pub fn summary(&self, omit: usize) -> (r: Option<TcpSummary>)
        ensures
            r is Some <==> self.totals_fit(omit as int),
            r matches Some(t) ==> t.bytes_sent == streams_total(
                self.streams(),
                tcp_stream_sent(omit as int),
                256,
            ) && t.bytes_received == streams_total(
                self.streams(),
                tcp_stream_received(omit as int),
                256,
            ),
    {
        broadcast use vstd::std_specs::hash::group_hash_axioms;

        let ghost m = self.stream_results@;
        let ghost gs = tcp_stream_sent(omit as int);
        let ghost gr = tcp_stream_received(omit as int);
        proof {
            assert forall|x: TcpStreamResults| #[trigger] gs(x) >= 0 by {
                assert forall|y: TcpSendResult| #[trigger] tcp_bytes_sent()(y) >= 0 by {}
                lemma_sum_field_nonneg(x.send_results@, omit as int, tcp_bytes_sent());
            }
            assert forall|x: TcpStreamResults| #[trigger] gr(x) >= 0 by {
                assert forall|y: TcpReceiveResult| #[trigger] tcp_bytes_received()(y) >= 0 by {}
                lemma_sum_field_nonneg(x.receive_results@, omit as int, tcp_bytes_received());
            }
        }
        let mut bytes_sent: u64 = 0;
        let mut bytes_received: u64 = 0;
        let mut k: u16 = 0;
        while k < 256
            invariant
                k <= 256,
                m == self.stream_results@,
                gs == tcp_stream_sent(omit as int),
                gr == tcp_stream_received(omit as int),
                forall|x: TcpStreamResults| #[trigger] gs(x) >= 0,
                forall|x: TcpStreamResults| #[trigger] gr(x) >= 0,
                bytes_sent == streams_total(m, gs, k as int),
                bytes_received == streams_total(m, gr, k as int),
            decreases 256 - k,
        {
            proof {
                lemma_streams_total_le(m, gs, k + 1, 256);
                lemma_streams_total_le(m, gr, k + 1, 256);
            }
            let idx = k as u8;
            match self.stream_results.get(&idx) {
                Some(stream) => {
                    proof {
                        assert(m.contains_key(idx));
                    }
                    let part = match stream.summary(omit) {
                        Some(p) => p,
                        None => {
                            return None;
                        },
                    };
                    bytes_sent = match bytes_sent.checked_add(part.bytes_sent) {
                        Some(t) => t,
                        None => {
                            return None;
                        },
                    };
                    bytes_received = match bytes_received.checked_add(part.bytes_received) {
                        Some(t) => t,
                        None => {
                            return None;
                        },
                    };
                },
                None => {},
            }
            k = k + 1;
        }
        Some(TcpSummary { bytes_sent, bytes_received })
    }
}

pub open spec fn udp_bytes_sent() -> spec_fn(UdpSendResult) -> int {
    |r: UdpSendResult| r.bytes_sent as int
}

pub open spec fn udp_packets_sent() -> spec_fn(UdpSendResult) -> int {
    |r: UdpSendResult| r.packets_sent as int
}

pub open spec fn udp_bytes_received() -> spec_fn(UdpReceiveResult) -> int {
    |r: UdpReceiveResult| r.bytes_received as int
}

pub open spec fn udp_packets_received() -> spec_fn(UdpReceiveResult) -> int {
    |r: UdpReceiveResult| r.packets_received as int
}

pub open spec fn udp_packets_out_of_order() -> spec_fn(UdpReceiveResult) -> int {
    |r: UdpReceiveResult| r.packets_out_of_order as int
}

pub open spec fn udp_packets_duplicated() -> spec_fn(UdpReceiveResult) -> int {
    |r: UdpReceiveResult| r.packets_duplicated as int
}

/// The packets over which jitter was measured: an interval's unbroken sequence
/// counts where the interval measured jitter.
pub open spec fn udp_jitter_sequence() -> spec_fn(UdpReceiveResult) -> int {
    |r: UdpReceiveResult|
        if r.jitter_bits is Some {
            r.unbroken_sequence as int
        } else {
            0
        }
}

/// One for each interval that measured jitter.
pub open spec fn udp_jitter_measured() -> spec_fn(UdpReceiveResult) -> int {
    |r: UdpReceiveResult|
        if r.jitter_bits is Some {
            1
        } else {
            0
        }
}

pub open spec fn udp_stream_send_total(omit: int, f: spec_fn(UdpSendResult) -> int) -> spec_fn(
    UdpStreamResults,
) -> int {
    |s: UdpStreamResults| sum_field(s.send_results@, omit, f)
}

pub open spec fn udp_stream_receive_total(omit: int, f: spec_fn(UdpReceiveResult) -> int) -> spec_fn(
    UdpStreamResults,
) -> int {
    |s: UdpStreamResults| sum_field(s.receive_results@, omit, f)
}

/// The interval results of one UDP stream, in the order they came.
pub struct UdpStreamResults {
    pub receive_results: Vec<UdpReceiveResult>,
    pub send_results: Vec<UdpSendResult>,
}

/// The packet and byte totals of a UDP stream or test.
#[derive(Clone, Copy, Debug, PartialEq, Eq)]
pub struct UdpSummary {
    pub bytes_sent: u64,
    pub packets_sent: u64,
    pub bytes_received: u64,
    pub packets_received: u64,
    pub packets_out_of_order: u64,
    pub packets_duplicated: u64,
    /// The packets over which jitter was measured, in all.
    pub unbroken_sequence_count: u64,
    /// Whether any interval measured jitter.
    pub jitter_calculated: bool,
}

impl UdpSummary {
    /// The packets sent but not received.
    pub fn packets_lost(&self) -> (r: u64)
        requires
            self.packets_sent >= self.packets_received,
        ensures
            r == self.packets_sent - self.packets_received,
    {
        self.packets_sent - self.packets_received
    }

    /// The bytes of an average datagram as sent, where any was sent.
    pub fn framed_packet_size(&self) -> (r: Option<u64>)
        ensures
            self.packets_sent > 0 ==> r == Some((self.bytes_sent / self.packets_sent) as u64),
            self.packets_sent == 0 ==> r is None,
    {
        if self.packets_sent > 0 {
            Some(self.bytes_sent / self.packets_sent)
        } else {
            None
        }
    }
}

/// Whether each of the summary's fields is the matching total.
pub open spec fn udp_summary_is(r: UdpSummary, sums: spec_fn(UdpSummaryField) -> int) -> bool {
    &&& r.bytes_sent == sums(UdpSummaryField::BytesSent)
    &&& r.packets_sent == sums(UdpSummaryField::PacketsSent)
    &&& r.bytes_received == sums(UdpSummaryField::BytesReceived)
    &&& r.packets_received == sums(UdpSummaryField::PacketsReceived)
    &&& r.packets_out_of_order == sums(UdpSummaryField::PacketsOutOfOrder)
    &&& r.packets_duplicated == sums(UdpSummaryField::PacketsDuplicated)
    &&& r.unbroken_sequence_count == sums(UdpSummaryField::JitterSequence)
    &&& r.jitter_calculated == (sums(UdpSummaryField::JitterMeasured) > 0)
}

/// The totals that a UDP summary holds.
pub enum UdpSummaryField {
    BytesSent,
    PacketsSent,
    BytesReceived,
    PacketsReceived,
    PacketsOutOfOrder,
    PacketsDuplicated,
    JitterSequence,
    JitterMeasured,
}

/// The total of one summary field over a stream, leaving out its first `omit` intervals.
pub open spec fn udp_stream_sum(omit: int, field: UdpSummaryField) -> spec_fn(UdpStreamResults) -> int {
    match field {
        UdpSummaryField::BytesSent => udp_stream_send_total(omit, udp_bytes_sent()),
        UdpSummaryField::PacketsSent => udp_stream_send_total(omit, udp_packets_sent()),
        UdpSummaryField::BytesReceived => udp_stream_receive_total(omit, udp_bytes_received()),
        UdpSummaryField::PacketsReceived => udp_stream_receive_total(omit, udp_packets_received()),
        UdpSummaryField::PacketsOutOfOrder => udp_stream_receive_total(
            omit,
            udp_packets_out_of_order(),
        ),
        UdpSummaryField::PacketsDuplicated => udp_stream_receive_total(
            omit,
            udp_packets_duplicated(),
        ),
        UdpSummaryField::JitterSequence => udp_stream_receive_total(omit, udp_jitter_sequence()),
        UdpSummaryField::JitterMeasured => udp_stream_receive_total(omit, udp_jitter_measured()),
    }
}

pub proof fn lemma_udp_stream_sum_nonneg(omit: int, field: UdpSummaryField)
    ensures
        forall|x: UdpStreamResults| #[trigger] udp_stream_sum(omit, field)(x) >= 0,
{
    assert forall|x: UdpStreamResults| #[trigger] udp_stream_sum(omit, field)(x) >= 0 by {
        assert forall|y: UdpSendResult| #[trigger] udp_bytes_sent()(y) >= 0 by {}
        assert forall|y: UdpSendResult| #[trigger] udp_packets_sent()(y) >= 0 by {}
        assert forall|y: UdpReceiveResult| #[trigger] udp_bytes_received()(y) >= 0 by {}
        assert forall|y: UdpReceiveResult| #[trigger] udp_packets_received()(y) >= 0 by {}
        assert forall|y: UdpReceiveResult| #[trigger] udp_packets_out_of_order()(y) >= 0 by {}
        assert forall|y: UdpReceiveResult| #[trigger] udp_packets_duplicated()(y) >= 0 by {}
        assert forall|y: UdpReceiveResult| #[trigger] udp_jitter_sequence()(y) >= 0 by {}
        assert forall|y: UdpReceiveResult| #[trigger] udp_jitter_measured()(y) >= 0 by {}
        lemma_sum_field_nonneg(x.send_results@, omit, udp_bytes_sent());
        lemma_sum_field_nonneg(x.send_results@, omit, udp_packets_sent());
        lemma_sum_field_nonneg(x.receive_results@, omit, udp_bytes_received());
        lemma_sum_field_nonneg(x.receive_results@, omit, udp_packets_received());
        lemma_sum_field_nonneg(x.receive_results@, omit, udp_packets_out_of_order());
        lemma_sum_field_nonneg(x.receive_results@, omit, udp_packets_duplicated());
        lemma_sum_field_nonneg(x.receive_results@, omit, udp_jitter_sequence());
        lemma_sum_field_nonneg(x.receive_results@, omit, udp_jitter_measured());
    }
}

impl UdpStreamResults {
    pub fn new() -> (r: UdpStreamResults)
        ensures
            r.receive_results@.len() == 0,
            r.send_results@.len() == 0,
    {
        UdpStreamResults { receive_results: Vec::new(), send_results: Vec::new() }
    }

    /// Whether each total of the stream, leaving out its first `omit` intervals, fits a `u64`.
    pub open spec fn totals_fit(&self, omit: int) -> bool {
        forall|field: UdpSummaryField|
            field != UdpSummaryField::JitterMeasured ==> #[trigger] udp_stream_sum(omit, field)(
                *self,
            ) <= u64::MAX
    }

    /// The totals of the stream, leaving out its first `omit` intervals; `None`
    /// when a total does not fit a `u64`.
    pub fn summary(&self, omit: usize) -> (r: Option<UdpSummary>)
        ensures
            r is Some <==> self.totals_fit(omit as int),
            r matches Some(s) ==> udp_summary_is(
                s,
                |field: UdpSummaryField| udp_stream_sum(omit as int, field)(*self),
            ),
    {
        let ghost o = omit as int;
        let bytes_sent = match total_of(&self.send_results, omit, udp_send_bytes, Ghost(udp_bytes_sent())) {
            Some(t) => t,
            None => {
                assert(udp_stream_sum(o, UdpSummaryField::BytesSent)(*self) > u64::MAX);
                return None;
            },
        };
        let packets_sent = match total_of(&self.send_results, omit, udp_send_packets, Ghost(udp_packets_sent())) {
            Some(t) => t,
            None => {
                assert(udp_stream_sum(o, UdpSummaryField::PacketsSent)(*self) > u64::MAX);
                return None;
            },
        };
        let bytes_received = match total_of(&self.receive_results, omit, udp_receive_bytes, Ghost(udp_bytes_received())) {
            Some(t) => t,
            None => {
                assert(udp_stream_sum(o, UdpSummaryField::BytesReceived)(*self) > u64::MAX);
                return None;
            },
        };
        let packets_received = match total_of(&self.receive_results, omit, udp_receive_packets, Ghost(udp_packets_received())) {
            Some(t) => t,
            None => {
                assert(udp_stream_sum(o, UdpSummaryField::PacketsReceived)(*self) > u64::MAX);
                return None;
            },
        };
        let packets_out_of_order = match total_of(
            &self.receive_results,
            omit,
            udp_receive_out_of_order,
            Ghost(udp_packets_out_of_order()),
        ) {
            Some(t) => t,
            None => {
                assert(udp_stream_sum(o, UdpSummaryField::PacketsOutOfOrder)(*self) > u64::MAX);
                return None;
            },
        };
        let packets_duplicated = match total_of(
            &self.receive_results,
            omit,
            udp_receive_duplicated,
            Ghost(udp_packets_duplicated()),
        ) {
            Some(t) => t,
            None => {
                assert(udp_stream_sum(o, UdpSummaryField::PacketsDuplicated)(*self) > u64::MAX);
                return None;
            },
        };
        let unbroken_sequence_count = match total_of(
            &self.receive_results,
            omit,
            udp_receive_jitter_run,
            Ghost(udp_jitter_sequence()),
        ) {
            Some(t) => t,
            None => {
                assert(udp_stream_sum(o, UdpSummaryField::JitterSequence)(*self) > u64::MAX);
                return None;
            },
        };
        let jitter_calculated = any_jitter(&self.receive_results, omit);
        let r = UdpSummary {
            bytes_sent,
            packets_sent,
            bytes_received,
            packets_received,
            packets_out_of_order,
            packets_duplicated,
            unbroken_sequence_count,
            jitter_calculated,
        };
        proof {
            assert forall|field: UdpSummaryField|
                field != UdpSummaryField::JitterMeasured implies #[trigger] udp_stream_sum(o, field)(
                *self,
            ) <= u64::MAX by {
                match field {
                    UdpSummaryField::BytesSent => {},
                    UdpSummaryField::PacketsSent => {},
                    UdpSummaryField::BytesReceived => {},
                    UdpSummaryField::PacketsReceived => {},
                    UdpSummaryField::PacketsOutOfOrder => {},
                    UdpSummaryField::PacketsDuplicated => {},
                    UdpSummaryField::JitterSequence => {},
                    UdpSummaryField::JitterMeasured => {},
                }
            }
        }
        Some(r)
    }
}

/// The results of a UDP test: each stream's interval results, and which streams
/// are still running, have failed, or were reported finished by the server.
pub struct UdpTestResults {
    stream_results: HashMap<u8, UdpStreamResults>,
    pending_tests: HashSet<u8>,
    failed_tests: HashSet<u8>,
    server_tests_finished: HashSet<u8>,
}

impl UdpTestResults {
    /// The streams prepared so far, by index.
    pub closed spec fn streams(&self) -> Map<u8, UdpStreamResults> {
        self.stream_results@
    }

    /// The streams that have not finished on the client's side.
    pub closed spec fn pending(&self) -> Set<u8> {
        self.pending_tests@
    }

    /// The streams that failed.
    pub closed spec fn failed(&self) -> Set<u8> {
        self.failed_tests@
    }

    /// The streams that the server reported finished.
    pub closed spec fn server_finished(&self) -> Set<u8> {
        self.server_tests_finished@
    }

    /// Results with no streams.
    pub fn new() -> (r: UdpTestResults)
        ensures
            r.streams() == Map::<u8, UdpStreamResults>::empty(),
            r.pending() == Set::<u8>::empty(),
            r.failed() == Set::<u8>::empty(),
            r.server_finished() == Set::<u8>::empty(),
            bookkeeping(r) == book_after(Seq::empty()),
    {
        UdpTestResults {
            stream_results: HashMap::new(),
            pending_tests: HashSet::new(),
            failed_tests: HashSet::new(),
            server_tests_finished: HashSet::new(),
        }
    }

    /// Starts tracking stream `idx`: it has no results yet and is pending.
    pub fn prepare_index(&mut self, idx: &u8)
        ensures
            final(self).streams().dom() == old(self).streams().dom().insert(*idx),
            final(self).streams()[*idx].receive_results@.len() == 0,
            final(self).streams()[*idx].send_results@.len() == 0,
            forall|k: u8| #[trigger] old(self).streams().contains_key(k) && k != *idx ==> final(self).streams()[k] == old(self).streams()[k],
            final(self).pending() == old(self).pending().insert(*idx),
            final(self).failed() == old(self).failed(),
            final(self).server_finished() == old(self).server_finished(),
            bookkeeping(*final(self)) == book_step(bookkeeping(*old(self)), StreamEvent::Prepare(*idx)),
    {
        broadcast use vstd::std_specs::hash::group_hash_axioms;

        self.stream_results.insert(*idx, UdpStreamResults::new());
        self.pending_tests.insert(*idx);
    }

}

impl UdpTestResults {
    /// Where an interval result reported with the given `family`, `stream_idx` and
    /// `kind` fields goes: the family must be "udp", the index (taken modulo 256)
    /// one of a prepared stream, and the kind "send" or "receive"; checked in that order.
    pub fn route_update(&self, family: &TextField, stream_idx: &IntegerField, kind: &TextField) -> (r:
        Result<(u8, IntervalResultKind), ResultError>)
        ensures
            match *family {
                TextField::Absent => r == Err::<(u8, IntervalResultKind), ResultError>(
                    ResultError::NoFamily,
                ),
                TextField::NotText => r == Err::<(u8, IntervalResultKind), ResultError>(
                    ResultError::FamilyNotText,
                ),
                TextField::Text(f) => if f@ != "udp"@ {
                    r matches Err(ResultError::UnsupportedFamily(g)) && g@ == f@
                } else {
                    match *stream_idx {
                        IntegerField::Absent => r == Err::<(u8, IntervalResultKind), ResultError>(
                            ResultError::NoStreamIndex,
                        ),
                        IntegerField::NotInteger => r == Err::<
                            (u8, IntervalResultKind),
                            ResultError,
                        >(ResultError::StreamIndexNotInteger),
                        IntegerField::Integer(i) => if !self.streams().contains_key(i as u8) {
                            r == Err::<(u8, IntervalResultKind), ResultError>(
                                ResultError::UnknownStreamIndex(i),
                            )
                        } else {
                            match *kind {
                                TextField::Absent => r == Err::<
                                    (u8, IntervalResultKind),
                                    ResultError,
                                >(ResultError::NoKind),
                                TextField::NotText => r == Err::<
                                    (u8, IntervalResultKind),
                                    ResultError,
                                >(ResultError::KindNotText),
                                TextField::Text(k) => if k@ == "send"@ {
                                    r == Ok::<(u8, IntervalResultKind), ResultError>(
                                        (i as u8, IntervalResultKind::UdpSend),
                                    )
                                } else if k@ == "receive"@ {
                                    r == Ok::<(u8, IntervalResultKind), ResultError>(
                                        (i as u8, IntervalResultKind::UdpReceive),
                                    )
                                } else {
                                    r matches Err(ResultError::UnsupportedKind(g)) && g@ == k@
                                },
                            }
                        },
                    }
                },
            },
    {
        broadcast use vstd::std_specs::hash::group_hash_axioms;

        let f = match family {
            TextField::Absent => {
                return Err(ResultError::NoFamily);
            },
            TextField::NotText => {
                return Err(ResultError::FamilyNotText);
            },
            TextField::Text(f) => f,
        };
        if !text_equals(f.as_str(), "udp") {
            return Err(ResultError::UnsupportedFamily(f.clone()));
        }
        let i = match stream_idx {
            IntegerField::Absent => {
                return Err(ResultError::NoStreamIndex);
            },
            IntegerField::NotInteger => {
                return Err(ResultError::StreamIndexNotInteger);
            },
            IntegerField::Integer(i) => *i,
        };
        let idx = i as u8;
        if !self.stream_results.contains_key(&idx) {
            return Err(ResultError::UnknownStreamIndex(i));
        }
        let k = match kind {
            TextField::Absent => {
                return Err(ResultError::NoKind);
            },
            TextField::NotText => {
                return Err(ResultError::KindNotText);
            },
            TextField::Text(k) => k,
        };
        if text_equals(k.as_str(), "send") {
            Ok((idx, IntervalResultKind::UdpSend))
        } else if text_equals(k.as_str(), "receive") {
            Ok((idx, IntervalResultKind::UdpReceive))
        } else {
            Err(ResultError::UnsupportedKind(k.clone()))
        }
    }

    /// Appends a send result to the results of stream `idx`.
    pub fn record_send(&mut self, idx: u8, result: UdpSendResult)
        requires
            old(self).streams().contains_key(idx),
        ensures
            final(self).streams().dom() == old(self).streams().dom(),
            final(self).streams()[idx].send_results@ == old(self).streams()[idx].send_results@.push(
                result,
            ),
            final(self).streams()[idx].receive_results@ == old(self).streams()[idx].receive_results@,
            forall|k: u8| #[trigger] old(self).streams().contains_key(k) && k != idx ==> final(self).streams()[k] == old(self).streams()[k],
            final(self).pending() == old(self).pending(),
            final(self).failed() == old(self).failed(),
            final(self).server_finished() == old(self).server_finished(),
            bookkeeping(*final(self)) == book_step(bookkeeping(*old(self)), StreamEvent::Record(idx)),
    {
        broadcast use vstd::std_specs::hash::group_hash_axioms;

        let mut stream = self.stream_results.remove(&idx).unwrap();
        stream.send_results.push(result);
        self.stream_results.insert(idx, stream);
        assert(self.stream_results@.dom() =~= old(self).stream_results@.dom());
    }

    /// Appends a receive result to the results of stream `idx`.
    pub fn record_receive(&mut self, idx: u8, result: UdpReceiveResult)
        requires
            old(self).streams().contains_key(idx),
        ensures
            final(self).streams().dom() == old(self).streams().dom(),
            final(self).streams()[idx].receive_results@ == old(self).streams()[idx].receive_results@.push(result),
            final(self).streams()[idx].send_results@ == old(self).streams()[idx].send_results@,
            forall|k: u8| #[trigger] old(self).streams().contains_key(k) && k != idx ==> final(self).streams()[k] == old(self).streams()[k],
            final(self).pending() == old(self).pending(),
            final(self).failed() == old(self).failed(),
            final(self).server_finished() == old(self).server_finished(),
            bookkeeping(*final(self)) == book_step(bookkeeping(*old(self)), StreamEvent::Record(idx)),
    {
        broadcast use vstd::std_specs::hash::group_hash_axioms;

        let mut stream = self.stream_results.remove(&idx).unwrap();
        stream.receive_results.push(result);
        self.stream_results.insert(idx, stream);
        assert(self.stream_results@.dom() =~= old(self).stream_results@.dom());
    }

    /// The results of stream `idx`, where it was prepared.
    pub fn stream(&self, idx: u8) -> (r: Option<&UdpStreamResults>)
        ensures
            self.streams().contains_key(idx) ==> r == Some(&self.streams()[idx]),
            !self.streams().contains_key(idx) ==> r is None,
    {
        broadcast use vstd::std_specs::hash::group_hash_axioms;

        self.stream_results.get(&idx)
    }

    /// Whether stream `idx` is still pending (reported as abandoned).
    pub fn is_pending(&self, idx: u8) -> (r: bool)
        ensures
            r == self.pending().contains(idx),
    {
        broadcast use vstd::std_specs::hash::group_hash_axioms;

        self.pending_tests.contains(&idx)
    }

    /// Whether stream `idx` failed.
    pub fn is_failed(&self, idx: u8) -> (r: bool)
        ensures
            r == self.failed().contains(idx),
    {
        broadcast use vstd::std_specs::hash::group_hash_axioms;

        self.failed_tests.contains(&idx)
    }

    /// The number of streams prepared.
    pub fn stream_count(&self) -> (r: usize)
        ensures
            r == self.streams().len(),
    {
        broadcast use vstd::std_specs::hash::group_hash_axioms;

        self.stream_results.len()
    }

    /// Whether each total over all streams fits a `u64`.
    pub open spec fn totals_fit(&self, omit: int) -> bool {
        forall|field: UdpSummaryField|
            field != UdpSummaryField::JitterMeasured ==> #[trigger] streams_total(
                self.streams(),
                udp_stream_sum(omit, field),
                256,
            ) <= u64::MAX
    }

    /// The totals over all streams, each stream leaving out its first `omit`
    /// intervals; `None` when a total does not fit a `u64`.
    pub fn summary(&self, omit: usize) -> (r: Option<UdpSummary>)
        ensures
            r is Some <==> self.totals_fit(omit as int),
            r matches Some(s) ==> udp_summary_is(
                s,
                |field: UdpSummaryField|
                    streams_total(self.streams(), udp_stream_sum(omit as int, field), 256),
            ),
    {
        broadcast use vstd::std_specs::hash::group_hash_axioms;

        let ghost m = self.stream_results@;
        let ghost o = omit as int;
        let ghost t = |field: UdpSummaryField, k: int| streams_total(m, udp_stream_sum(o, field), k);
        proof {
            lemma_udp_stream_sum_nonneg(o, UdpSummaryField::BytesSent);
            lemma_udp_stream_sum_nonneg(o, UdpSummaryField::PacketsSent);
            lemma_udp_stream_sum_nonneg(o, UdpSummaryField::BytesReceived);
            lemma_udp_stream_sum_nonneg(o, UdpSummaryField::PacketsReceived);
            lemma_udp_stream_sum_nonneg(o, UdpSummaryField::PacketsOutOfOrder);
            lemma_udp_stream_sum_nonneg(o, UdpSummaryField::PacketsDuplicated);
            lemma_udp_stream_sum_nonneg(o, UdpSummaryField::JitterSequence);
            lemma_udp_stream_sum_nonneg(o, UdpSummaryField::JitterMeasured);
        }
        let mut total = UdpSummary {
            bytes_sent: 0,
            packets_sent: 0,
            bytes_received: 0,
            packets_received: 0,
            packets_out_of_order: 0,
            packets_duplicated: 0,
            unbroken_sequence_count: 0,
            jitter_calculated: false,
        };
        let mut k: u16 = 0;
        while k < 256
            invariant
                k <= 256,
                m == self.stream_results@,
                o == omit as int,
                t == (|field: UdpSummaryField, k: int| streams_total(m, udp_stream_sum(o, field), k)),
                forall|field: UdpSummaryField, x: UdpStreamResults|
                    #[trigger] udp_stream_sum(o, field)(x) >= 0,
                udp_summary_is(total, |field: UdpSummaryField| t(field, k as int)),
            decreases 256 - k,
        {
            proof {
                assert forall|field: UdpSummaryField|
                    0 <= #[trigger] t(field, k as int) <= t(field, k + 1) <= t(field, 256) by {
                    lemma_streams_total_le(m, udp_stream_sum(o, field), k as int, k + 1);
                    lemma_streams_total_le(m, udp_stream_sum(o, field), k + 1, 256);
                }
            }
            let idx = k as u8;
            match self.stream_results.get(&idx) {
                Some(stream) => {
                    proof {
                        assert(m.contains_key(idx));
                        assert forall|field: UdpSummaryField| #[trigger] t(field, k + 1) == t(
                            field,
                            k as int,
                        ) + udp_stream_sum(o, field)(*stream) by {}
                    }
                    let part = match stream.summary(omit) {
                        Some(p) => p,
                        None => {
                            proof {
                                let field = choose|field: UdpSummaryField|
                                    field != UdpSummaryField::JitterMeasured && #[trigger] udp_stream_sum(
                                        o,
                                        field,
                                    )(*stream) > u64::MAX;
                                assert(t(field, k + 1) > u64::MAX);
                                assert(streams_total(self.streams(), udp_stream_sum(o, field), 256) > u64::MAX);
                            }
                            return None;
                        },
                    };
                    let bytes_sent = match total.bytes_sent.checked_add(part.bytes_sent) {
                        Some(v) => v,
                        None => {
                            proof {
                                assert(t(UdpSummaryField::BytesSent, k + 1) > u64::MAX);
                                assert(streams_total(self.streams(), udp_stream_sum(o, UdpSummaryField::BytesSent), 256) > u64::MAX);
                            }
                            return None;
                        },
                    };
                    let packets_sent = match total.packets_sent.checked_add(part.packets_sent) {
                        Some(v) => v,
                        None => {
                            proof {
                                assert(t(UdpSummaryField::PacketsSent, k + 1) > u64::MAX);
                                assert(streams_total(self.streams(), udp_stream_sum(o, UdpSummaryField::PacketsSent), 256) > u64::MAX);
                            }
                            return None;
                        },
                    };
                    let bytes_received = match total.bytes_received.checked_add(part.bytes_received) {
                        Some(v) => v,
                        None => {
                            proof {
                                assert(t(UdpSummaryField::BytesReceived, k + 1) > u64::MAX);
                                assert(streams_total(self.streams(), udp_stream_sum(o, UdpSummaryField::BytesReceived), 256) > u64::MAX);
                            }
                            return None;
                        },
                    };
                    let packets_received = match total.packets_received.checked_add(part.packets_received) {
                        Some(v) => v,
                        None => {
                            proof {
                                assert(t(UdpSummaryField::PacketsReceived, k + 1) > u64::MAX);
                                assert(streams_total(self.streams(), udp_stream_sum(o, UdpSummaryField::PacketsReceived), 256) > u64::MAX);
                            }
                            return None;
                        },
                    };
                    let packets_out_of_order = match total.packets_out_of_order.checked_add(part.packets_out_of_order) {
                        Some(v) => v,
                        None => {
                            proof {
                                assert(t(UdpSummaryField::PacketsOutOfOrder, k + 1) > u64::MAX);
                                assert(streams_total(self.streams(), udp_stream_sum(o, UdpSummaryField::PacketsOutOfOrder), 256) > u64::MAX);
                            }
                            return None;
                        },
                    };
                    let packets_duplicated = match total.packets_duplicated.checked_add(part.packets_duplicated) {
                        Some(v) => v,
                        None => {
                            proof {
                                assert(t(UdpSummaryField::PacketsDuplicated, k + 1) > u64::MAX);
                                assert(streams_total(self.streams(), udp_stream_sum(o, UdpSummaryField::PacketsDuplicated), 256) > u64::MAX);
                            }
                            return None;
                        },
                    };
                    let unbroken_sequence_count = match total.unbroken_sequence_count.checked_add(part.unbroken_sequence_count) {
                        Some(v) => v,
                        None => {
                            proof {
                                assert(t(UdpSummaryField::JitterSequence, k + 1) > u64::MAX);
                                assert(streams_total(self.streams(), udp_stream_sum(o, UdpSummaryField::JitterSequence), 256) > u64::MAX);
                            }
                            return None;
                        },
                    };
                    total = UdpSummary {
                        bytes_sent,
                        packets_sent,
                        bytes_received,
                        packets_received,
                        packets_out_of_order,
                        packets_duplicated,
                        unbroken_sequence_count,
                        jitter_calculated: total.jitter_calculated || part.jitter_calculated,
                    };
                },
                None => {},
            }
            k = k + 1;
        }
        proof {
            assert forall|field: UdpSummaryField|
                field != UdpSummaryField::JitterMeasured implies #[trigger] streams_total(
                self.streams(),
                udp_stream_sum(o, field),
                256,
            ) <= u64::MAX by {
                assert(t(field, 256) == streams_total(self.streams(), udp_stream_sum(o, field), 256));
                match field {
                    UdpSummaryField::BytesSent => {},
                    UdpSummaryField::PacketsSent => {},
                    UdpSummaryField::BytesReceived => {},
                    UdpSummaryField::PacketsReceived => {},
                    UdpSummaryField::PacketsOutOfOrder => {},
                    UdpSummaryField::PacketsDuplicated => {},
                    UdpSummaryField::JitterSequence => {},
                    UdpSummaryField::JitterMeasured => {},
                }
            }
        }
        Some(total)
    }
}

impl TestResults for TcpTestResults {
    open spec fn prepared_streams(&self) -> Set<u8> {
        self.streams().dom()
    }

    open spec fn pending_streams(&self) -> Set<u8> {
        self.pending()
    }

    open spec fn failed_streams(&self) -> Set<u8> {
        self.failed()
    }

    open spec fn server_finished_streams(&self) -> Set<u8> {
        self.server_finished()
    }

    /// The number of streams still pending on the client's side (as a `u8`, so
    /// 256 pending streams count as none).
    fn count_in_progress_streams(&self) -> (r: u8)
        ensures
            r == self.pending().len() as u8,
    {
        broadcast use vstd::std_specs::hash::group_hash_axioms;

        self.pending_tests.len() as u8
    }

    /// Records that stream `idx` finished on the client's side; an unsuccessful
    /// stream is also recorded as failed.
    fn mark_stream_done(&mut self, idx: &u8, success: bool)
        ensures
            final(self).pending() == old(self).pending().remove(*idx),
            final(self).failed() == (if success {
                old(self).failed()
            } else {
                old(self).failed().insert(*idx)
            }),
            final(self).streams() == old(self).streams(),
            final(self).server_finished() == old(self).server_finished(),
    {
        broadcast use vstd::std_specs::hash::group_hash_axioms;

        self.pending_tests.remove(idx);
        if !success {
            self.failed_tests.insert(*idx);
        }
    }

    /// The number of prepared streams that the server has not reported finished.
    fn count_in_progress_streams_server(&self) -> (r: u8)
        ensures
            r == unfinished_below(self.streams().dom(), self.server_finished(), 256),
    {
        broadcast use vstd::std_specs::hash::group_hash_axioms;

        let mut count: u8 = 0;
        let mut k: u16 = 0;
        while k < 256
            invariant
                k <= 256,
                unfinished_below(self.stream_results@.dom(), self.server_tests_finished@, 256) < 256,
                count == unfinished_below(self.stream_results@.dom(), self.server_tests_finished@, k as int),
            decreases 256 - k,
        {
            proof {
                lemma_unfinished_below_le(self.stream_results@.dom(), self.server_tests_finished@, k + 1, 256);
            }
            let idx = k as u8;
            if self.stream_results.contains_key(&idx) && !self.server_tests_finished.contains(&idx) {
                count = count + 1;
            }
            k = k + 1;
        }
        count
    }

    /// Records that the server reported stream `idx` finished.
    fn mark_stream_done_server(&mut self, idx: &u8)
        ensures
            final(self).server_finished() == old(self).server_finished().insert(*idx),
            final(self).streams() == old(self).streams(),
            final(self).pending() == old(self).pending(),
            final(self).failed() == old(self).failed(),
    {
        broadcast use vstd::std_specs::hash::group_hash_axioms;

        self.server_tests_finished.insert(*idx);
    }

    /// The test succeeded when no stream is pending and none failed.
    fn is_success(&self) -> (r: bool)
        ensures
            r == (self.pending().len() == 0 && self.failed().len() == 0),
    {
        broadcast use vstd::std_specs::hash::group_hash_axioms;

        self.pending_tests.len() == 0 && self.failed_tests.len() == 0
    }
}

impl TestResults for UdpTestResults {
    open spec fn prepared_streams(&self) -> Set<u8> {
        self.streams().dom()
    }

    open spec fn pending_streams(&self) -> Set<u8> {
        self.pending()
    }

    open spec fn failed_streams(&self) -> Set<u8> {
        self.failed()
    }

    open spec fn server_finished_streams(&self) -> Set<u8> {
        self.server_finished()
    }

    /// The number of streams still pending on the client's side (as a `u8`, so
    /// 256 pending streams count as none).
    fn count_in_progress_streams(&self) -> (r: u8)
        ensures
            r == self.pending().len() as u8,
    {
        broadcast use vstd::std_specs::hash::group_hash_axioms;

        self.pending_tests.len() as u8
    }

    /// Records that stream `idx` finished on the client's side; an unsuccessful
    /// stream is also recorded as failed.
    fn mark_stream_done(&mut self, idx: &u8, success: bool)
        ensures
            final(self).pending() == old(self).pending().remove(*idx),
            final(self).failed() == (if success {
                old(self).failed()
            } else {
                old(self).failed().insert(*idx)
            }),
            final(self).streams() == old(self).streams(),
            final(self).server_finished() == old(self).server_finished(),
    {
        broadcast use vstd::std_specs::hash::group_hash_axioms;

        self.pending_tests.remove(idx);
        if !success {
            self.failed_tests.insert(*idx);
        }
    }

    /// The number of prepared streams that the server has not reported finished.
    fn count_in_progress_streams_server(&self) -> (r: u8)
        ensures
            r == unfinished_below(self.streams().dom(), self.server_finished(), 256),
    {
        broadcast use vstd::std_specs::hash::group_hash_axioms;

        let mut count: u8 = 0;
        let mut k: u16 = 0;
        while k < 256
            invariant
                k <= 256,
                unfinished_below(self.stream_results@.dom(), self.server_tests_finished@, 256) < 256,
                count == unfinished_below(self.stream_results@.dom(), self.server_tests_finished@, k as int),
            decreases 256 - k,
        {
            proof {
                lemma_unfinished_below_le(self.stream_results@.dom(), self.server_tests_finished@, k + 1, 256);
            }
            let idx = k as u8;
            if self.stream_results.contains_key(&idx) && !self.server_tests_finished.contains(&idx) {
                count = count + 1;
            }
            k = k + 1;
        }
        count
    }

    /// Records that the server reported stream `idx` finished.
    fn mark_stream_done_server(&mut self, idx: &u8)
        ensures
            final(self).server_finished() == old(self).server_finished().insert(*idx),
            final(self).streams() == old(self).streams(),
            final(self).pending() == old(self).pending(),
            final(self).failed() == old(self).failed(),
    {
        broadcast use vstd::std_specs::hash::group_hash_axioms;

        self.server_tests_finished.insert(*idx);
    }

    /// The test succeeded when no stream is pending and none failed.
    fn is_success(&self) -> (r: bool)
        ensures
            r == (self.pending().len() == 0 && self.failed().len() == 0),
    {
        broadcast use vstd::std_specs::hash::group_hash_axioms;

        self.pending_tests.len() == 0 && self.failed_tests.len() == 0
    }
}

/// Omitting more intervals never raises a TCP test's totals; omitting none sums
/// every interval of every stream.
pub proof fn lemma_tcp_totals_omit_monotone(m: Map<u8, TcpStreamResults>, k1: int, k2: int)
    requires
        k1 <= k2,
    ensures
        streams_total(m, tcp_stream_sent(k2), 256) <= streams_total(m, tcp_stream_sent(k1), 256),
        streams_total(m, tcp_stream_received(k2), 256) <= streams_total(
            m,
            tcp_stream_received(k1),
            256,
        ),
{
    assert forall|x: TcpStreamResults| #[trigger] tcp_stream_sent(k2)(x) <= tcp_stream_sent(k1)(x) by {
        assert forall|y: TcpSendResult| #[trigger] tcp_bytes_sent()(y) >= 0 by {}
        lemma_sum_field_omit_monotone(x.send_results@, k1, k2, tcp_bytes_sent());
    }
    assert forall|x: TcpStreamResults| #[trigger] tcp_stream_received(k2)(x) <= tcp_stream_received(k1)(x) by {
        assert forall|y: TcpReceiveResult| #[trigger] tcp_bytes_received()(y) >= 0 by {}
        lemma_sum_field_omit_monotone(x.receive_results@, k1, k2, tcp_bytes_received());
    }
    lemma_streams_total_pointwise(m, tcp_stream_sent(k2), tcp_stream_sent(k1), 256);
    lemma_streams_total_pointwise(m, tcp_stream_received(k2), tcp_stream_received(k1), 256);
}

/// Omitting more intervals never raises a UDP test's totals.
pub proof fn lemma_udp_totals_omit_monotone(
    m: Map<u8, UdpStreamResults>,
    k1: int,
    k2: int,
    field: UdpSummaryField,
)
    requires
        k1 <= k2,
    ensures
        streams_total(m, udp_stream_sum(k2, field), 256) <= streams_total(
            m,
            udp_stream_sum(k1, field),
            256,
        ),
{
    assert forall|x: UdpStreamResults| #[trigger] udp_stream_sum(k2, field)(x) <= udp_stream_sum(k1, field)(x) by {
        assert forall|y: UdpSendResult| #[trigger] udp_bytes_sent()(y) >= 0 by {}
        assert forall|y: UdpSendResult| #[trigger] udp_packets_sent()(y) >= 0 by {}
        assert forall|y: UdpReceiveResult| #[trigger] udp_bytes_received()(y) >= 0 by {}
        assert forall|y: UdpReceiveResult| #[trigger] udp_packets_received()(y) >= 0 by {}
        assert forall|y: UdpReceiveResult| #[trigger] udp_packets_out_of_order()(y) >= 0 by {}
        assert forall|y: UdpReceiveResult| #[trigger] udp_packets_duplicated()(y) >= 0 by {}
        assert forall|y: UdpReceiveResult| #[trigger] udp_jitter_sequence()(y) >= 0 by {}
        assert forall|y: UdpReceiveResult| #[trigger] udp_jitter_measured()(y) >= 0 by {}
        match field {
            UdpSummaryField::BytesSent => lemma_sum_field_omit_monotone(x.send_results@, k1, k2, udp_bytes_sent()),
            UdpSummaryField::PacketsSent => lemma_sum_field_omit_monotone(x.send_results@, k1, k2, udp_packets_sent()),
            UdpSummaryField::BytesReceived => lemma_sum_field_omit_monotone(x.receive_results@, k1, k2, udp_bytes_received()),
            UdpSummaryField::PacketsReceived => lemma_sum_field_omit_monotone(x.receive_results@, k1, k2, udp_packets_received()),
            UdpSummaryField::PacketsOutOfOrder => lemma_sum_field_omit_monotone(x.receive_results@, k1, k2, udp_packets_out_of_order()),
            UdpSummaryField::PacketsDuplicated => lemma_sum_field_omit_monotone(x.receive_results@, k1, k2, udp_packets_duplicated()),
            UdpSummaryField::JitterSequence => lemma_sum_field_omit_monotone(x.receive_results@, k1, k2, udp_jitter_sequence()),
            UdpSummaryField::JitterMeasured => lemma_sum_field_omit_monotone(x.receive_results@, k1, k2, udp_jitter_measured()),
        }
    }
    lemma_streams_total_pointwise(m, udp_stream_sum(k2, field), udp_stream_sum(k1, field), 256);
}

/// A call on a test's results: preparing a stream, the client's report that a
/// stream finished (and whether it succeeded), the server's report that a stream
/// finished, and filing an interval result under a stream.
pub enum StreamEvent {
    Prepare(u8),
    Done(u8, bool),
    ServerDone(u8),
    Record(u8),
}

/// The bookkeeping that the calls change: the prepared, pending, failed and
/// server-finished streams.
pub open spec fn bookkeeping<T: TestResults>(t: T) -> (Set<u8>, Set<u8>, Set<u8>, Set<u8>) {
    (t.prepared_streams(), t.pending_streams(), t.failed_streams(), t.server_finished_streams())
}

/// What one call does to the bookkeeping, as the contracts of `prepare_index`,
/// `mark_stream_done`, `mark_stream_done_server`, `record_send` and
/// `record_receive` say.
pub open spec fn book_step(b: (Set<u8>, Set<u8>, Set<u8>, Set<u8>), e: StreamEvent) -> (
    Set<u8>,
    Set<u8>,
    Set<u8>,
    Set<u8>,
) {
    match e {
        StreamEvent::Prepare(i) => (b.0.insert(i), b.1.insert(i), b.2, b.3),
        StreamEvent::Done(i, success) => (
            b.0,
            b.1.remove(i),
            if success {
                b.2
            } else {
                b.2.insert(i)
            },
            b.3,
        ),
        StreamEvent::ServerDone(i) => (b.0, b.1, b.2, b.3.insert(i)),
        StreamEvent::Record(_) => b,
    }
}

/// The bookkeeping after the calls `events`, from results with no streams.
pub open spec fn book_after(events: Seq<StreamEvent>) -> (Set<u8>, Set<u8>, Set<u8>, Set<u8>)
    decreases events.len(),
{
    if events.len() == 0 {
        (Set::<u8>::empty(), Set::<u8>::empty(), Set::<u8>::empty(), Set::<u8>::empty())
    } else {
        book_step(book_after(events.drop_last()), events.last())
    }
}

/// Whether `e` is the client's report on stream `i`.
pub open spec fn done_of(e: StreamEvent, i: u8) -> bool {
    e matches StreamEvent::Done(j, _) && j == i
}

/// Whether stream `i` was prepared by one of `events`.
pub open spec fn prepared_by(events: Seq<StreamEvent>, i: u8) -> bool {
    exists|k: int| 0 <= k < events.len() && events[k] == StreamEvent::Prepare(i)
}

/// Whether stream `i` was prepared by one of `events` and no report of the client
/// on it came after.
pub open spec fn pending_by(events: Seq<StreamEvent>, i: u8) -> bool {
    exists|k: int|
        0 <= k < events.len() && events[k] == StreamEvent::Prepare(i) && forall|j: int|
            k < j < events.len() ==> !done_of(#[trigger] events[j], i)
}

/// Whether the client reported stream `i` failed in one of `events`.
pub open spec fn failed_by(events: Seq<StreamEvent>, i: u8) -> bool {
    exists|k: int| 0 <= k < events.len() && events[k] == StreamEvent::Done(i, false)
}

/// Whether the server reported stream `i` finished in one of `events`.
pub open spec fn server_finished_by(events: Seq<StreamEvent>, i: u8) -> bool {
    exists|k: int| 0 <= k < events.len() && events[k] == StreamEvent::ServerDone(i)
}

/// The bookkeeping over any sequence of calls: a stream is prepared once some call
/// prepared it; it is pending while no report of the client followed its last
/// preparation; it failed once the client reported it failed, for good; it is
/// finished on the server's side once the server reported it.
pub proof fn lemma_bookkeeping(events: Seq<StreamEvent>)
    ensures
        book_after(events).0.finite(),
        book_after(events).1.finite(),
        book_after(events).2.finite(),
        book_after(events).3.finite(),
        forall|i: u8| #[trigger] book_after(events).0.contains(i) == prepared_by(events, i),
        forall|i: u8| #[trigger] book_after(events).1.contains(i) == pending_by(events, i),
        forall|i: u8| #[trigger] book_after(events).2.contains(i) == failed_by(events, i),
        forall|i: u8| #[trigger] book_after(events).3.contains(i) == server_finished_by(events, i),
    decreases events.len(),
{
    if events.len() > 0 {
        let prev = events.drop_last();
        let e = events.last();
        let n = events.len() - 1;
        lemma_bookkeeping(prev);
        assert forall|k: int| 0 <= k < n implies events[k] == #[trigger] prev[k] by {}
        assert forall|i: u8| #[trigger] book_after(events).0.contains(i) == prepared_by(events, i) by {
            if prepared_by(prev, i) {
                let k = choose|k: int| 0 <= k < prev.len() && prev[k] == StreamEvent::Prepare(i);
                assert(events[k] == prev[k]);
            }
            if prepared_by(events, i) && e != StreamEvent::Prepare(i) {
                let k = choose|k: int| 0 <= k < events.len() && events[k] == StreamEvent::Prepare(i);
                assert(k < n);
                assert(prev[k] == events[k]);
            }
        }
        assert forall|i: u8| #[trigger] book_after(events).2.contains(i) == failed_by(events, i) by {
            if failed_by(prev, i) {
                let k = choose|k: int| 0 <= k < prev.len() && prev[k] == StreamEvent::Done(i, false);
                assert(events[k] == prev[k]);
            }
            if failed_by(events, i) && e != StreamEvent::Done(i, false) {
                let k = choose|k: int| 0 <= k < events.len() && events[k] == StreamEvent::Done(i, false);
                assert(k < n);
                assert(prev[k] == events[k]);
            }
        }
        assert forall|i: u8| #[trigger] book_after(events).3.contains(i) == server_finished_by(events, i) by {
            if server_finished_by(prev, i) {
                let k = choose|k: int| 0 <= k < prev.len() && prev[k] == StreamEvent::ServerDone(i);
                assert(events[k] == prev[k]);
            }
            if server_finished_by(events, i) && e != StreamEvent::ServerDone(i) {
                let k = choose|k: int| 0 <= k < events.len() && events[k] == StreamEvent::ServerDone(i);
                assert(k < n);
                assert(prev[k] == events[k]);
            }
        }
        assert forall|i: u8| #[trigger] book_after(events).1.contains(i) == pending_by(events, i) by {
            if pending_by(events, i) {
                let k = choose|k: int|
                    0 <= k < events.len() && events[k] == StreamEvent::Prepare(i) && forall|j: int|
                        k < j < events.len() ==> !done_of(#[trigger] events[j], i);
                if k < n {
                    assert(!done_of(events[n], i));
                    assert(prev[k] == events[k]);
                    assert forall|j: int| k < j < prev.len() implies !done_of(#[trigger] prev[j], i) by {
                        assert(prev[j] == events[j]);
                    }
                    assert(pending_by(prev, i));
                }
            }
            if e == StreamEvent::Prepare(i) {
                assert(events[n] == StreamEvent::Prepare(i));
                assert(pending_by(events, i));
            } else if pending_by(prev, i) && !done_of(e, i) {
                let k = choose|k: int|
                    0 <= k < prev.len() && prev[k] == StreamEvent::Prepare(i) && forall|j: int|
                        k < j < prev.len() ==> !done_of(#[trigger] prev[j], i);
                assert(events[k] == prev[k]);
                assert forall|j: int| k < j < events.len() implies !done_of(#[trigger] events[j], i) by {
                    if j < n {
                        assert(prev[j] == events[j]);
                    }
                }
                assert(pending_by(events, i));
            }
        }
    }
}

/// A test succeeds exactly when, over the calls made, every prepared stream was
/// reported on by the client after its last preparation, and no report was a
/// failure (so one failure fails the test for good).
pub proof fn lemma_success_over_calls(events: Seq<StreamEvent>)
    ensures
        (book_after(events).1.len() == 0 && book_after(events).2.len() == 0) == (forall|i: u8|
            !pending_by(events, i) && !failed_by(events, i)),
{
    lemma_bookkeeping(events);
    let b = book_after(events);
    if forall|i: u8| !pending_by(events, i) && !failed_by(events, i) {
        assert(b.1 =~= Set::<u8>::empty());
        assert(b.2 =~= Set::<u8>::empty());
    }
    if b.1.len() == 0 && b.2.len() == 0 {
        assert forall|i: u8| !pending_by(events, i) && !failed_by(events, i) by {
            if pending_by(events, i) {
                assert(b.1.contains(i));
                vstd::set_lib::lemma_set_empty_equivalency_len(b.1);
            }
            if failed_by(events, i) {
                assert(b.2.contains(i));
                vstd::set_lib::lemma_set_empty_equivalency_len(b.2);
            }
        }
    }
}

/// Whether `states` are the results before and after each of `calls` in turn,
/// each call changing the bookkeeping as its contract says.
pub open spec fn follows_calls<T: TestResults>(states: Seq<T>, calls: Seq<StreamEvent>) -> bool {
    &&& states.len() == calls.len() + 1
    &&& forall|k: int|
        0 <= k < calls.len() ==> bookkeeping(states[k + 1]) == book_step(
            bookkeeping(states[k]),
            #[trigger] calls[k],
        )
}

/// Results follow their calls: from results with no streams, after any sequence
/// of calls the bookkeeping is the one that `book_after` gives for those calls. A
/// stream is pending exactly while no report of the client followed its last
/// preparation, it stays failed once the client reported it failed, and the test
/// succeeds exactly when no stream is left pending and none was reported failed.
pub proof fn lemma_results_follow_calls<T: TestResults>(states: Seq<T>, calls: Seq<StreamEvent>)
    requires
        follows_calls(states, calls),
        bookkeeping(states[0]) == book_after(Seq::<StreamEvent>::empty()),
    ensures
        bookkeeping(states.last()) == book_after(calls),
        forall|i: u8| #[trigger] states.last().prepared_streams().contains(i) == prepared_by(calls, i),
        forall|i: u8| #[trigger] states.last().pending_streams().contains(i) == pending_by(calls, i),
        forall|i: u8| #[trigger] states.last().failed_streams().contains(i) == failed_by(calls, i),
        forall|i: u8|
            #[trigger] states.last().server_finished_streams().contains(i) == server_finished_by(calls, i),
        (states.last().pending_streams().len() == 0 && states.last().failed_streams().len() == 0)
            == (forall|i: u8| !pending_by(calls, i) && !failed_by(calls, i)),
    decreases calls.len(),
{
    if calls.len() > 0 {
        let n = calls.len() - 1;
        let earlier = states.drop_last();
        let before = calls.drop_last();
        assert forall|k: int| 0 <= k < before.len() implies bookkeeping(earlier[k + 1]) == book_step(
            bookkeeping(earlier[k]),
            #[trigger] before[k],
        ) by {
            assert(calls[k] == before[k]);
        }
        lemma_results_follow_calls(earlier, before);
        assert(bookkeeping(states[n + 1]) == book_step(bookkeeping(states[n]), calls[n]));
    }
    lemma_bookkeeping(calls);
    lemma_success_over_calls(calls);
}

/// The calls that prepare the streams `prepared` in turn, then report the
/// streams of `reports` finished (each with whether it succeeded) in turn.
pub open spec fn prepare_then_report(prepared: Seq<u8>, reports: Seq<(u8, bool)>) -> Seq<StreamEvent> {
    prepared.map_values(|i: u8| StreamEvent::Prepare(i)) + reports.map_values(
        |d: (u8, bool)| StreamEvent::Done(d.0, d.1),
    )
}

/// The streams that `reports` reports on.
pub open spec fn reported(reports: Seq<(u8, bool)>) -> Set<u8> {
    Set::new(|i: u8| exists|k: int| 0 <= k < reports.len() && #[trigger] reports[k].0 == i)
}

/// Preparing streams and then reporting on streams leaves pending exactly the
/// prepared streams that were not reported on, and failed exactly those reported
/// unsuccessful; so when every prepared stream was reported on, each successfully,
/// no stream is in progress and the test succeeds.
pub proof fn lemma_prepare_then_report(prepared: Seq<u8>, reports: Seq<(u8, bool)>)
    ensures
        book_after(prepare_then_report(prepared, reports)).1 == prepared.to_set().difference(
            reported(reports),
        ),
        forall|i: u8|
            #[trigger] book_after(prepare_then_report(prepared, reports)).2.contains(i)
                == reports.contains((i, false)),
        (forall|i: u8| prepared.contains(i) ==> reported(reports).contains(i)) && (forall|k: int|
            0 <= k < reports.len() ==> #[trigger] reports[k].1) ==> book_after(
            prepare_then_report(prepared, reports),
        ).1.len() == 0 && book_after(prepare_then_report(prepared, reports)).2.len() == 0,
{
    let events = prepare_then_report(prepared, reports);
    let np = prepared.len() as int;
    lemma_bookkeeping(events);
    assert forall|k: int| 0 <= k < np implies #[trigger] events[k] == StreamEvent::Prepare(prepared[k]) by {}
    assert forall|k: int| np <= k < events.len() implies #[trigger] events[k] == StreamEvent::Done(
        reports[k - np].0,
        reports[k - np].1,
    ) by {}
    let b = book_after(events);
    assert forall|i: u8| #[trigger] b.1.contains(i) == prepared.to_set().difference(reported(reports)).contains(i) by {
        if pending_by(events, i) {
            let k = choose|k: int|
                0 <= k < events.len() && events[k] == StreamEvent::Prepare(i) && forall|j: int|
                    k < j < events.len() ==> !done_of(#[trigger] events[j], i);
            if k >= np {
                assert(events[k] == StreamEvent::Done(reports[k - np].0, reports[k - np].1));
            }
            assert(prepared[k] == i);
            assert(prepared.contains(i));
            if reported(reports).contains(i) {
                let m = choose|m: int| 0 <= m < reports.len() && #[trigger] reports[m].0 == i;
                assert(done_of(events[np + m], i));
            }
        }
        if prepared.contains(i) && !reported(reports).contains(i) {
            let k = choose|k: int| 0 <= k < prepared.len() && prepared[k] == i;
            assert(events[k] == StreamEvent::Prepare(i));
            assert forall|j: int| k < j < events.len() implies !done_of(#[trigger] events[j], i) by {
                if j >= np {
                    assert(events[j] == StreamEvent::Done(reports[j - np].0, reports[j - np].1));
                    if reports[j - np].0 == i {
                        assert(reported(reports).contains(i));
                    }
                }
            }
            assert(pending_by(events, i));
        }
    }
    assert(b.1 =~= prepared.to_set().difference(reported(reports)));
    assert forall|i: u8| #[trigger] b.2.contains(i) == reports.contains((i, false)) by {
        if failed_by(events, i) {
            let k = choose|k: int| 0 <= k < events.len() && events[k] == StreamEvent::Done(i, false);
            if k < np {
                assert(events[k] == StreamEvent::Prepare(prepared[k]));
            }
            assert(reports[k - np] == (i, false));
        }
        if reports.contains((i, false)) {
            let m = choose|m: int| 0 <= m < reports.len() && reports[m] == (i, false);
            assert(events[np + m] == StreamEvent::Done(i, false));
        }
    }
    if (forall|i: u8| prepared.contains(i) ==> reported(reports).contains(i)) && (forall|k: int|
        0 <= k < reports.len() ==> #[trigger] reports[k].1) {
        assert(b.1 =~= Set::<u8>::empty());
        assert forall|i: u8| !b.2.contains(i) by {
            if reports.contains((i, false)) {
                let m = choose|m: int| 0 <= m < reports.len() && reports[m] == (i, false);
                assert(reports[m].1);
            }
        }
        assert(b.2 =~= Set::<u8>::empty());
    }
}

/// The stream indices below `n` that are prepared but not reported finished by
/// the server.
pub open spec fn unfinished_set(prepared: Set<u8>, finished: Set<u8>, n: int) -> Set<u8> {
    Set::new(|i: u8| i < n && prepared.contains(i) && !finished.contains(i))
}

proof fn lemma_unfinished_set_len(prepared: Set<u8>, finished: Set<u8>, n: int)
    requires
        0 <= n <= 256,
    ensures
        unfinished_set(prepared, finished, n).finite(),
        unfinished_set(prepared, finished, n).len() == unfinished_below(prepared, finished, n),
    decreases n,
{
    if n == 0 {
        assert(unfinished_set(prepared, finished, 0) =~= Set::<u8>::empty());
    } else {
        lemma_unfinished_set_len(prepared, finished, n - 1);
        let k = (n - 1) as u8;
        let before = unfinished_set(prepared, finished, n - 1);
        if prepared.contains(k) && !finished.contains(k) {
            assert(unfinished_set(prepared, finished, n) =~= before.insert(k));
            assert(!before.contains(k));
        } else {
            assert(unfinished_set(prepared, finished, n) =~= before);
        }
    }
}

/// The server's count of unfinished streams is the number of prepared streams
/// that it has not reported finished: reports on other indices, and repeated
/// reports, change nothing.
pub proof fn lemma_unfinished_count(prepared: Set<u8>, finished: Set<u8>)
    ensures
        unfinished_below(prepared, finished, 256) == prepared.difference(finished).len(),
{
    lemma_unfinished_set_len(prepared, finished, 256);
    assert(unfinished_set(prepared, finished, 256) =~= prepared.difference(finished));
}

/// The results of a test, whichever its family.
pub enum AnyTestResults {
    Tcp(TcpTestResults),
    Udp(UdpTestResults),
}

/// The stream indices below `count`.
pub open spec fn indices_below(count: u8) -> Set<u8> {
    Set::new(|i: u8| i < count)
}

/// Results for a test of `stream_count` streams, indexed from zero: each stream
/// is prepared with no results and is pending.
pub fn prepare_test_results(is_udp: bool, stream_count: u8) -> (r: AnyTestResults)
    ensures
        (r is Udp) == is_udp,
        r.prepared_streams() == indices_below(stream_count),
        r.pending_streams() == indices_below(stream_count),
        r.failed_streams() == Set::<u8>::empty(),
        r.server_finished_streams() == Set::<u8>::empty(),
{
    if is_udp {
        let mut udp_test_results = UdpTestResults::new();
        for i in 0..stream_count
            invariant
                udp_test_results.streams().dom() == indices_below(i),
                udp_test_results.pending() == indices_below(i),
                udp_test_results.failed() == Set::<u8>::empty(),
                udp_test_results.server_finished() == Set::<u8>::empty(),
        {
            udp_test_results.prepare_index(&i);
            assert(indices_below(i).insert(i) =~= indices_below((i + 1) as u8));
        }
        AnyTestResults::Udp(udp_test_results)
    } else {
        let mut tcp_test_results = TcpTestResults::new();
        for i in 0..stream_count
            invariant
                tcp_test_results.streams().dom() == indices_below(i),
                tcp_test_results.pending() == indices_below(i),
                tcp_test_results.failed() == Set::<u8>::empty(),
                tcp_test_results.server_finished() == Set::<u8>::empty(),
        {
            tcp_test_results.prepare_index(&i);
            assert(indices_below(i).insert(i) =~= indices_below((i + 1) as u8));
        }
        AnyTestResults::Tcp(tcp_test_results)
    }
}

impl AnyTestResults {
    /// The number of streams prepared.
    pub fn stream_count(&self) -> (r: usize)
        ensures
            r == self.prepared_streams().len(),
    {
        match self {
            AnyTestResults::Tcp(tr) => tr.stream_count(),
            AnyTestResults::Udp(tr) => tr.stream_count(),
        }
    }
}

impl TestResults for AnyTestResults {
    open spec fn prepared_streams(&self) -> Set<u8> {
        match self {
            AnyTestResults::Tcp(tr) => tr.prepared_streams(),
            AnyTestResults::Udp(tr) => tr.prepared_streams(),
        }
    }

    open spec fn pending_streams(&self) -> Set<u8> {
        match self {
            AnyTestResults::Tcp(tr) => tr.pending_streams(),
            AnyTestResults::Udp(tr) => tr.pending_streams(),
        }
    }

    open spec fn failed_streams(&self) -> Set<u8> {
        match self {
            AnyTestResults::Tcp(tr) => tr.failed_streams(),
            AnyTestResults::Udp(tr) => tr.failed_streams(),
        }
    }

    open spec fn server_finished_streams(&self) -> Set<u8> {
        match self {
            AnyTestResults::Tcp(tr) => tr.server_finished_streams(),
            AnyTestResults::Udp(tr) => tr.server_finished_streams(),
        }
    }

    fn count_in_progress_streams(&self) -> (r: u8) {
        match self {
            AnyTestResults::Tcp(tr) => tr.count_in_progress_streams(),
            AnyTestResults::Udp(tr) => tr.count_in_progress_streams(),
        }
    }

    fn mark_stream_done(&mut self, idx: &u8, success: bool) {
        match self {
            AnyTestResults::Tcp(tr) => tr.mark_stream_done(idx, success),
            AnyTestResults::Udp(tr) => tr.mark_stream_done(idx, success),
        }
    }

    fn count_in_progress_streams_server(&self) -> (r: u8) {
        match self {
            AnyTestResults::Tcp(tr) => tr.count_in_progress_streams_server(),
            AnyTestResults::Udp(tr) => tr.count_in_progress_streams_server(),
        }
    }

    fn mark_stream_done_server(&mut self, idx: &u8) {
        match self {
            AnyTestResults::Tcp(tr) => tr.mark_stream_done_server(idx),
            AnyTestResults::Udp(tr) => tr.mark_stream_done_server(idx),
        }
    }

    fn is_success(&self) -> (r: bool) {
        match self {
            AnyTestResults::Tcp(tr) => tr.is_success(),
            AnyTestResults::Udp(tr) => tr.is_success(),
        }
    }
}

} // verus!
