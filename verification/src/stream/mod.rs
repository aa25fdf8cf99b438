pub mod pacing;
pub mod port_spec;
pub mod tcp;
pub mod udp;

use vstd::prelude::*;

verus! {

/// The length of a reporting interval, in nanoseconds.
pub const INTERVAL_NANOS: u64 = 1_000_000_000;

/// How long a receiver waits for data before it gives up on a stream, in nanoseconds.
pub const RECEIVE_TIMEOUT_NANOS: u64 = 3_000_000_000;

/// Whether a reporting interval that began `elapsed_nanos` ago is over.
pub fn interval_over(elapsed_nanos: u64) -> (r: bool)
    ensures
        r == (elapsed_nanos >= INTERVAL_NANOS),
{
    elapsed_nanos >= INTERVAL_NANOS
}

/// Whether a receiver that has waited `elapsed_nanos` for data has waited too long.
pub fn receive_timed_out(elapsed_nanos: u64) -> (r: bool)
    ensures
        r == (elapsed_nanos >= RECEIVE_TIMEOUT_NANOS),
{
    elapsed_nanos >= RECEIVE_TIMEOUT_NANOS
}

/// What a test stream's configuration message says about the test, as the
/// values that the stream definitions read from it.
pub struct TestDetails {
    /// The elements of the `test_id` array, each as an integer where it is one;
    /// empty when the message has no `test_id`.
    pub test_id: Vec<Option<i64>>,
    /// The `length` field, where the message has one.
    pub length: Option<i64>,
    /// The `bandwidth` field, in bytes per second (zero where the message has none).
    pub bandwidth: u64,
}

/// Why a test definition could not be made.
#[derive(Debug, Clone, Copy, PartialEq, Eq)]
pub enum DefinitionError {
    /// The requested length cannot hold the test header.
    LengthTooShort(u64),
}

/// The byte of a test id taken from element `i` of a configuration's `test_id`
/// array: a missing or non-integer element counts as zero, and integers keep
/// their low byte.
pub open spec fn test_id_byte(ids: Seq<Option<i64>>, i: int) -> u8 {
    if i < ids.len() {
        match ids[i] {
            Some(v) => v as u8,
            None => 0u8,
        }
    } else {
        0u8
    }
}

/// The sixteen-byte test id that a configuration names.
pub fn test_id_from_details(ids: &Vec<Option<i64>>) -> (r: [u8; 16])
    ensures
        forall|i: int| 0 <= i < 16 ==> #[trigger] r@[i] == test_id_byte(ids@, i),
{
    let mut id: [u8; 16] = [0u8; 16];
    let n = if ids.len() < 16 {
        ids.len()
    } else {
        16
    };
    for i in 0..n
        invariant
            n <= 16,
            n <= ids@.len(),
            n == ids@.len() || n == 16,
            forall|k: int| 0 <= k < i ==> #[trigger] id@[k] == test_id_byte(ids@, k),
            forall|k: int| i <= k < 16 ==> #[trigger] id@[k] == 0,
    {
        let b: u8 = match ids[i] {
            Some(v) => v as u8,
            None => 0,
        };
        id[i] = b;
    }
    id
}

/// Whether the first sixteen bytes of `buf` are `test_id`.
pub fn matches_test_id(buf: &[u8], test_id: &[u8; 16]) -> (r: bool)
    requires
        buf@.len() >= 16,
    ensures
        r == (buf@.take(16) == test_id@),
{
    for i in 0..16
        invariant
            buf@.len() >= 16,
            forall|k: int| 0 <= k < i ==> buf@[k] == test_id@[k],
    {
        if buf[i] != test_id[i] {
            assert(buf@.take(16)[i as int] != test_id@[i as int]);
            return false;
        }
    }
    assert(buf@.take(16) =~= test_id@);
    true
}

/// A test stream: a data-carrying connection of a test, identified by its index.
pub trait TestStream {
    /// The index of the stream, which the client and the server share.
    fn get_idx(&self) -> u8;

    /// Stops a running stream: it sends or accepts no more data.
    fn stop(&mut self);
}

} // verus!
