use crate::bytes::{be_bytes, be_value, lemma_be_bytes_len, lemma_be_roundtrip, lemma_pow256_facts, read_be, write_be};
use vstd::prelude::*;

verus! {

/// A control message on the wire: its length as two big-endian bytes (the length
/// taken modulo 65536), then the message itself.
pub open spec fn framed(payload: Seq<u8>) -> Seq<u8> {
    be_bytes(payload.len() % 65536, 2) + payload
}

/// Frames a serialised control message for sending.
pub fn frame_message(payload: &[u8]) -> (r: Vec<u8>)
    ensures
        r@ == framed(payload@),
{
    let n = payload.len();
    let mut out: Vec<u8> = Vec::new();
    out.push(0);
    out.push(0);
    write_be(&mut out, 0, (n % 65536) as u64, 2);
    proof {
        lemma_be_bytes_len((n % 65536) as nat, 2);
        assert(out@ =~= be_bytes((n % 65536) as nat, 2));
    }
    let ghost head = out@;
    for i in 0..n
        invariant
            n == payload@.len(),
            head == be_bytes((n % 65536) as nat, 2),
            out@ =~= head + payload@.take(i as int),
    {
        out.push(payload[i]);
        proof {
            assert(payload@.take(i + 1) =~= payload@.take(i as int).push(payload@[i as int]));
        }
    }
    proof {
        assert(payload@.take(n as int) =~= payload@);
    }
    out
}

/// Reading a framed message back gives its length and its bytes, for every
/// message shorter than 65536 bytes.
pub proof fn lemma_frame_roundtrip(payload: Seq<u8>)
    requires
        payload.len() < 65536,
    ensures
        be_value(framed(payload).subrange(0, 2)) == payload.len(),
        framed(payload).subrange(2, framed(payload).len() as int) == payload,
{
    lemma_pow256_facts();
    lemma_be_bytes_len(payload.len() % 65536, 2);
    lemma_be_roundtrip(payload.len(), 2);
    assert(framed(payload).subrange(0, 2) =~= be_bytes(payload.len() % 65536, 2));
    assert(framed(payload).subrange(2, framed(payload).len() as int) =~= payload);
}

/// Why a control message could not be read.
#[derive(Clone, Copy, Debug, PartialEq, Eq)]
pub enum ReceiveError {
    /// The peer closed the connection while the program was running.
    ConnectionLost,
    /// The connection closed because the program is shutting down.
    LocalShutdown,
}

/// A read that returned no bytes means that the connection closed: an error that
/// says whether the program was shutting down.
pub fn disconnect_error(alive: bool) -> (r: ReceiveError)
    ensures
        r == (if alive {
            ReceiveError::ConnectionLost
        } else {
            ReceiveError::LocalShutdown
        }),
{
    if alive {
        ReceiveError::ConnectionLost
    } else {
        ReceiveError::LocalShutdown
    }
}

/// Collects the two length bytes of a control message, however they arrive.
pub struct LengthReader {
    received: Vec<u8>,
}

impl LengthReader {
    /// The length bytes collected so far.
    pub closed spec fn view(&self) -> Seq<u8> {
        self.received@
    }

    pub fn new() -> (r: LengthReader)
        ensures
            r.view() == Seq::<u8>::empty(),
    {
        LengthReader { received: Vec::new() }
    }

    /// How many length bytes are still to come.
    pub fn remaining(&self) -> (r: usize)
        requires
            self.view().len() <= 2,
        ensures
            r == 2 - self.view().len(),
    {
        2 - self.received.len()
    }

    /// Takes bytes read from the connection; once both length bytes are there,
    /// gives the message length they hold.
    pub fn feed(&mut self, chunk: &[u8]) -> (r: Option<u16>)
        requires
            old(self).view().len() + chunk@.len() <= 2,
        ensures
            final(self).view() == old(self).view() + chunk@,
            final(self).view().len() == 2 ==> r == Some(be_value(final(self).view()) as u16),
            final(self).view().len() < 2 ==> r is None,
    {
        let n = chunk.len();
        let ghost start = self.received@;
        for i in 0..n
            invariant
                n == chunk@.len(),
                start.len() + n <= 2,
                self.received@ =~= start + chunk@.take(i as int),
        {
            self.received.push(chunk[i]);
            proof {
                assert(chunk@.take(i + 1) =~= chunk@.take(i as int).push(chunk@[i as int]));
            }
        }
        proof {
            assert(chunk@.take(n as int) =~= chunk@);
        }
        if self.received.len() == 2 {
            let v = read_be(self.received.as_slice(), 0, 2);
            proof {
                assert(self.received@.subrange(0, 2) =~= self.received@);
            }
            Some(v as u16)
        } else {
            None
        }
    }
}

/// Collects the bytes of a control message of a known length.
pub struct PayloadReader {
    expected: u16,
    received: Vec<u8>,
}

impl PayloadReader {
    /// The message bytes collected so far.
    pub closed spec fn view(&self) -> Seq<u8> {
        self.received@
    }

    /// The length of the message.
    pub closed spec fn expected(&self) -> u16 {
        self.expected
    }

    pub fn new(length: u16) -> (r: PayloadReader)
        ensures
            r.view() == Seq::<u8>::empty(),
            r.expected() == length,
    {
        PayloadReader { expected: length, received: Vec::new() }
    }

    /// How many message bytes are still to come.
    pub fn remaining(&self) -> (r: usize)
        requires
            self.view().len() <= self.expected(),
        ensures
            r == self.expected() - self.view().len(),
    {
        self.expected as usize - self.received.len()
    }

    /// Takes bytes read from the connection; says whether the message is complete.
    pub fn feed(&mut self, chunk: &[u8]) -> (complete: bool)
        requires
            old(self).view().len() + chunk@.len() <= old(self).expected(),
        ensures
            final(self).view() == old(self).view() + chunk@,
            final(self).expected() == old(self).expected(),
            complete == (final(self).view().len() == final(self).expected()),
    {
        let n = chunk.len();
        let ghost start = self.received@;
        for i in 0..n
            invariant
                n == chunk@.len(),
                start.len() + n <= self.expected,
                self.expected == old(self).expected,
                self.received@ =~= start + chunk@.take(i as int),
        {
            self.received.push(chunk[i]);
            proof {
                assert(chunk@.take(i + 1) =~= chunk@.take(i as int).push(chunk@[i as int]));
            }
        }
        proof {
            assert(chunk@.take(n as int) =~= chunk@);
        }
        self.received.len() == self.expected as usize
    }

    /// The message bytes collected.
    pub fn payload(&self) -> (r: &Vec<u8>)
        ensures
            r@ == self.view(),
    {
        &self.received
    }
}

} // verus!
