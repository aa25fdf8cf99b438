use super::port_spec::{
    bind_order, parse_port_spec, port_spec_ports, port_spec_valid, search_order, sorted_u16,
};
use super::{test_id_byte, test_id_from_details, DefinitionError, TestDetails, TestStream};
use vstd::prelude::*;
use vstd::utf8::encode_utf8;

verus! {

/// Bytes at the head of a TCP test stream: the test id, sent once on connecting.
pub const TEST_HEADER_SIZE: usize = 16;

/// What one TCP test stream exchanges.
#[derive(Clone, Copy)]
pub struct TcpTestDefinition {
    /// Identifies the connections that belong to the test.
    pub test_id: [u8; 16],
    /// Bandwidth target, in bytes per second.
    pub bandwidth: u64,
    /// The length of the buffer written at a time.
    pub length: usize,
}

impl TcpTestDefinition {
    /// Reads a test definition from a configuration: the length defaults to the
    /// header size, is taken as a `usize` as it stands, and must hold the header.
    pub fn new(details: &TestDetails) -> (r: Result<TcpTestDefinition, DefinitionError>)
        ensures
            ({
                let length = (match details.length {
                    Some(l) => l,
                    None => TEST_HEADER_SIZE as i64,
                }) as usize;
                &&& length < TEST_HEADER_SIZE ==> r == Err::<TcpTestDefinition, DefinitionError>(
                    DefinitionError::LengthTooShort(length as u64),
                )
                &&& length >= TEST_HEADER_SIZE ==> (r matches Ok(d) && d.length == length
                    && d.bandwidth == details.bandwidth && forall|i: int|
                    0 <= i < 16 ==> #[trigger] d.test_id@[i] == test_id_byte(details.test_id@, i))
            }),
    {
        let test_id = test_id_from_details(&details.test_id);
        let raw: i64 = match details.length {
            Some(l) => l,
            None => TEST_HEADER_SIZE as i64,
        };
        let length = raw as usize;
        if length < TEST_HEADER_SIZE {
            return Err(DefinitionError::LengthTooShort(length as u64));
        }
        Ok(TcpTestDefinition { test_id, bandwidth: details.bandwidth, length })
    }
}

/// The buffer that a TCP sender writes: the test id, then a fixed byte sequence.
pub open spec fn staged_buffer_spec(def: TcpTestDefinition, p: Seq<u8>) -> bool {
    &&& p.len() == def.length
    &&& forall|i: int| 0 <= i < 16 ==> #[trigger] p[i] == def.test_id@[i]
    &&& forall|i: int| 16 <= i < p.len() ==> #[trigger] p[i] == (i % 256) as u8
}

/// A receiver of a test accepts the connection of a sender of the same test: the
/// first sixteen bytes that the sender writes are the test id.
pub proof fn lemma_sender_header_is_test_id(def: TcpTestDefinition, staged: Seq<u8>)
    requires
        def.length >= TEST_HEADER_SIZE,
        staged_buffer_spec(def, staged),
    ensures
        staged.take(16) == def.test_id@,
{
    assert(staged.take(16) =~= def.test_id@);
}

/// The sending side of a TCP test stream.
pub struct TcpSender {
    pub active: bool,
    pub test_definition: TcpTestDefinition,
    pub stream_idx: u8,
    pub staged_buffer: Vec<u8>,
}

impl TcpSender {
    /// A sender for stream `stream_idx`, with its buffer staged.
    pub fn new(test_definition: TcpTestDefinition, stream_idx: &u8) -> (r: TcpSender)
        requires
            test_definition.length >= TEST_HEADER_SIZE,
        ensures
            r.active,
            r.test_definition == test_definition,
            r.stream_idx == *stream_idx,
            staged_buffer_spec(test_definition, r.staged_buffer@),
    {
        let len = test_definition.length;
        let mut staged: Vec<u8> = Vec::new();
        let mut i: usize = 0;
        while i < len
            invariant
                i <= len,
                len == test_definition.length,
                staged@.len() == i,
                forall|k: int| 16 <= k < i ==> #[trigger] staged@[k] == (k % 256) as u8,
            decreases len - i,
        {
            staged.push((i % 256) as u8);
            i = i + 1;
        }
        for k in 0..16
            invariant
                len == test_definition.length,
                len >= TEST_HEADER_SIZE,
                staged@.len() == len,
                forall|j: int| 0 <= j < k ==> #[trigger] staged@[j] == test_definition.test_id@[j],
                forall|j: int| 16 <= j < len ==> #[trigger] staged@[j] == (j % 256) as u8,
        {
            staged.set(k, test_definition.test_id[k]);
        }
        TcpSender { active: true, test_definition, stream_idx: *stream_idx, staged_buffer: staged }
    }
}

impl TestStream for TcpSender {
    fn get_idx(&self) -> (r: u8)
        ensures
            r == self.stream_idx,
    {
        self.stream_idx
    }

    fn stop(&mut self)
        ensures
            !final(self).active,
            final(self).staged_buffer == old(self).staged_buffer,
            final(self).stream_idx == old(self).stream_idx,
            final(self).test_definition == old(self).test_definition,
    {
        self.active = false;
    }
}

/// The receiving side of a TCP test stream.
pub struct TcpReceiver {
    pub active: bool,
    pub test_definition: TcpTestDefinition,
    pub stream_idx: u8,
}

impl TcpReceiver {
    /// A receiver for stream `stream_idx`.
    pub fn new(test_definition: TcpTestDefinition, stream_idx: &u8) -> (r: TcpReceiver)
        ensures
            r.active,
            r.test_definition == test_definition,
            r.stream_idx == *stream_idx,
    {
        TcpReceiver { active: true, test_definition, stream_idx: *stream_idx }
    }

    /// Whether the first bytes of a new connection identify it as this test's stream.
    pub fn validates(&self, header: &[u8]) -> (r: bool)
        requires
            header@.len() >= 16,
        ensures
            r == (header@.take(16) == self.test_definition.test_id@),
    {
        super::matches_test_id(header, &self.test_definition.test_id)
    }

    /// Accounts for a read of `size` bytes: a read of nothing means that the sender
    /// has closed the stream, which stops the receiver; otherwise the bytes count.
    pub fn record_read(&mut self, bytes_received: u64, size: usize) -> (r: Option<u64>)
        ensures
            size == 0 ==> r == Some(bytes_received) && !final(self).active,
            size > 0 && bytes_received + size <= u64::MAX ==> r == Some(
                (bytes_received + size) as u64,
            ) && final(self).active == old(self).active,
            size > 0 && bytes_received + size > u64::MAX ==> r is None && final(self).active
                == old(self).active,
            final(self).stream_idx == old(self).stream_idx,
            final(self).test_definition == old(self).test_definition,
    {
        if size == 0 {
            self.stop();
            return Some(bytes_received);
        }
        bytes_received.checked_add(size as u64)
    }
}

impl TestStream for TcpReceiver {
    fn get_idx(&self) -> (r: u8)
        ensures
            r == self.stream_idx,
    {
        self.stream_idx
    }

    fn stop(&mut self)
        ensures
            !final(self).active,
            final(self).stream_idx == old(self).stream_idx,
            final(self).test_definition == old(self).test_definition,
    {
        self.active = false;
    }
}

/// The TCP ports over which a server accepts test streams, for IPv4 and IPv6 peers;
/// an empty pool leaves the choice to the OS. Each bind search starts after the
/// port last bound.
pub struct TcpPortPool {
    pub ports_ip4: Vec<u16>,
    pub ports_ip6: Vec<u16>,
    pos_ip4: usize,
    pos_ip6: usize,
}

impl TcpPortPool {
    /// The position of the port last bound stays inside a non-empty pool.
    pub closed spec fn wf(&self) -> bool {
        &&& (self.ports_ip4@.len() == 0 || self.pos_ip4 < self.ports_ip4@.len())
        &&& (self.ports_ip6@.len() == 0 || self.pos_ip6 < self.ports_ip6@.len())
    }

    /// Where the last bind search for the given family succeeded.
    pub closed spec fn position(&self, ipv6: bool) -> usize {
        if ipv6 {
            self.pos_ip6
        } else {
            self.pos_ip4
        }
    }

    pub closed spec fn ports(&self, ipv6: bool) -> Seq<u16> {
        if ipv6 {
            self.ports_ip6@
        } else {
            self.ports_ip4@
        }
    }

    /// A pool of the ports that the two specifications list, each sorted.
    pub fn new(port_spec: &str, port_spec6: &str) -> (r: TcpPortPool)
        requires
            port_spec_valid(encode_utf8(port_spec@)),
            port_spec_valid(encode_utf8(port_spec6@)),
        ensures
            r.wf(),
            r.position(false) == 0,
            r.position(true) == 0,
            sorted_u16(r.ports(false)),
            r.ports(false).to_multiset() =~= port_spec_ports(encode_utf8(port_spec@)).to_multiset(),
            sorted_u16(r.ports(true)),
            r.ports(true).to_multiset() =~= port_spec_ports(encode_utf8(port_spec6@)).to_multiset(),
    {
        let ports = parse_port_spec(port_spec);
        let ports6 = parse_port_spec(port_spec6);
        TcpPortPool { ports_ip4: ports, ports_ip6: ports6, pos_ip4: 0, pos_ip6: 0 }
    }

    /// The pool indices to try when binding for a peer of the given family, in
    /// order; empty when the pool is, and the OS then picks the port.
    pub fn bind_order(&self, ipv6: bool) -> (r: Vec<usize>)
        requires
            self.wf(),
        ensures
            self.ports(ipv6).len() == 0 ==> r@.len() == 0,
            self.ports(ipv6).len() > 0 ==> r@ == search_order(
                self.ports(ipv6).len(),
                self.position(ipv6) as nat,
            ),
    {
        if ipv6 {
            if self.ports_ip6.len() == 0 {
                Vec::new()
            } else {
                bind_order(self.ports_ip6.len(), self.pos_ip6)
            }
        } else {
            if self.ports_ip4.len() == 0 {
                Vec::new()
            } else {
                bind_order(self.ports_ip4.len(), self.pos_ip4)
            }
        }
    }

    /// Records that the port at index `idx` of the family's pool was bound.
    pub fn mark_bound(&mut self, ipv6: bool, idx: usize)
        requires
            old(self).wf(),
            idx < old(self).ports(ipv6).len(),
        ensures
            final(self).wf(),
            final(self).position(ipv6) == idx,
            final(self).position(!ipv6) == old(self).position(!ipv6),
            final(self).ports(false) == old(self).ports(false),
            final(self).ports(true) == old(self).ports(true),
    {
        if ipv6 {
            self.pos_ip6 = idx;
        } else {
            self.pos_ip4 = idx;
        }
    }
}

} // verus!
