use vstd::prelude::*;

verus! {

/// Number of bytes at the head of every UDP test packet (test id, packet id, timestamp).
pub const UDP_TEST_HEADER_SIZE: u32 = 36;

/// The number of parallel streams to use: zero means "not specified" and becomes one.
pub fn validate_streams(streams: u8) -> (r: u8)
    ensures
        r == (if streams > 0 { streams } else { 1u8 }),
{
    if streams > 0 {
        streams
    } else {
        1
    }
}

/// The target bandwidth in bytes per second: zero becomes 1024.
pub fn validate_bandwidth(bandwidth: u64) -> (r: u64)
    ensures
        r == (if bandwidth > 0 { bandwidth } else { 1024u64 }),
{
    if bandwidth > 0 {
        bandwidth
    } else {
        1024
    }
}

/// A UDP payload length must at least hold the test header.
pub fn calculate_length_udp(length: u32) -> (r: u32)
    ensures
        r == (if length < UDP_TEST_HEADER_SIZE { UDP_TEST_HEADER_SIZE } else { length }),
{
    if length < UDP_TEST_HEADER_SIZE {
        UDP_TEST_HEADER_SIZE
    } else {
        length
    }
}

} // verus!
