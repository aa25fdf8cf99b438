use super::configuration::{validate_bandwidth, validate_streams};
use vstd::prelude::*;
use vstd::string::*;

verus! {

/// The smallest TCP buffer: one that holds the test header.
pub const TCP_TEST_HEADER_SIZE: usize = 16;

/// The smallest UDP payload: one that holds the test header.
pub const UDP_TEST_HEADER_SIZE: u16 = 36;

/// A TCP buffer must at least hold the test header.
pub fn calculate_length_tcp(length: usize) -> (r: usize)
    ensures
        r == (if length < TCP_TEST_HEADER_SIZE { TCP_TEST_HEADER_SIZE } else { length }),
{
    if length < TCP_TEST_HEADER_SIZE {
        TCP_TEST_HEADER_SIZE
    } else {
        length
    }
}

/// A UDP payload must at least hold the test header.
pub fn calculate_length_udp(length: u16) -> (r: u16)
    ensures
        r == (if length < UDP_TEST_HEADER_SIZE { UDP_TEST_HEADER_SIZE } else { length }),
{
    if length < UDP_TEST_HEADER_SIZE {
        UDP_TEST_HEADER_SIZE
    } else {
        length
    }
}

/// The unit that a bandwidth figure's last character names: k, m, g for kilo-,
/// mega- and gigabits per second; K, M, G for the byte units; anything else
/// means that the figure is in bytes per second and has no unit character.
#[derive(Clone, Copy, Debug, PartialEq, Eq, Structural)]
pub enum BandwidthUnit {
    Bytes,
    Kilobits,
    Kilobytes,
    Megabits,
    Megabytes,
    Gigabits,
    Gigabytes,
}

pub open spec fn unit_of(c: char) -> BandwidthUnit {
    if c == 'k' {
        BandwidthUnit::Kilobits
    } else if c == 'K' {
        BandwidthUnit::Kilobytes
    } else if c == 'm' {
        BandwidthUnit::Megabits
    } else if c == 'M' {
        BandwidthUnit::Megabytes
    } else if c == 'g' {
        BandwidthUnit::Gigabits
    } else if c == 'G' {
        BandwidthUnit::Gigabytes
    } else {
        BandwidthUnit::Bytes
    }
}

impl BandwidthUnit {
    /// The bytes per second of one unit, as a fraction (numerator, denominator).
    pub fn multiplier(&self) -> (r: (u64, u64))
        ensures
            r == (match *self {
                BandwidthUnit::Bytes => (1u64, 1u64),
                BandwidthUnit::Kilobits => (1000u64, 8u64),
                BandwidthUnit::Kilobytes => (1000u64, 1u64),
                BandwidthUnit::Megabits => (1_000_000u64, 8u64),
                BandwidthUnit::Megabytes => (1_000_000u64, 1u64),
                BandwidthUnit::Gigabits => (1_000_000_000u64, 8u64),
                BandwidthUnit::Gigabytes => (1_000_000_000u64, 1u64),
            }),
    {
        match self {
            BandwidthUnit::Bytes => (1, 1),
            BandwidthUnit::Kilobits => (1000, 8),
            BandwidthUnit::Kilobytes => (1000, 1),
            BandwidthUnit::Megabits => (1_000_000, 8),
            BandwidthUnit::Megabytes => (1_000_000, 1),
            BandwidthUnit::Gigabits => (1_000_000_000, 8),
            BandwidthUnit::Gigabytes => (1_000_000_000, 1),
        }
    }
}

/// The unit that a character names.
pub fn bandwidth_unit_of(c: char) -> (r: BandwidthUnit)
    ensures
        r == unit_of(c),
{
    if c == 'k' {
        BandwidthUnit::Kilobits
    } else if c == 'K' {
        BandwidthUnit::Kilobytes
    } else if c == 'm' {
        BandwidthUnit::Megabits
    } else if c == 'M' {
        BandwidthUnit::Megabytes
    } else if c == 'g' {
        BandwidthUnit::Gigabits
    } else if c == 'G' {
        BandwidthUnit::Gigabytes
    } else {
        BandwidthUnit::Bytes
    }
}

/// Splits a bandwidth figure such as "10m" into its number and its unit; an
/// empty figure has neither.
pub fn split_bandwidth(spec: &str) -> (r: Option<(String, BandwidthUnit)>)
    ensures
        spec@.len() == 0 ==> r is None,
        spec@.len() > 0 ==> (r matches Some((number, unit)) && unit == unit_of(spec@.last())
            && number@ == (if unit == BandwidthUnit::Bytes {
            spec@
        } else {
            spec@.drop_last()
        })),
{
    let n = spec.unicode_len();
    if n == 0 {
        return None;
    }
    let unit = bandwidth_unit_of(spec.get_char(n - 1));
    let number = if unit == BandwidthUnit::Bytes {
        spec.substring_char(0, n)
    } else {
        spec.substring_char(0, n - 1)
    };
    proof {
        assert(spec@.subrange(0, n as int) =~= spec@);
        assert(spec@.subrange(0, n - 1) =~= spec@.drop_last());
    }
    Some((number.to_owned(), unit))
}

/// The protocol of a test.
#[derive(Clone, Copy, Debug, PartialEq, Eq, Structural)]
pub enum Family {
    Tcp,
    Udp,
}

/// What a client asks for, as far as the integer parts of its configuration go.
#[derive(Clone, Copy, Debug, PartialEq, Eq)]
pub struct ConfigurationRequest {
    pub parallel: usize,
    pub length: usize,
    pub send_buffer: usize,
    pub receive_buffer: usize,
    pub udp: bool,
    pub no_delay: bool,
}

/// The sending role's configuration, as sent to the peer (the duration and the
/// send interval travel beside it).
#[derive(Clone, Copy, Debug, PartialEq, Eq)]
pub struct UploadConfiguration {
    pub family: Family,
    pub test_id: [u8; 16],
    pub streams: u8,
    pub bandwidth: u64,
    pub length: u32,
    pub send_buffer: u32,
    /// Whether to disable Nagle's algorithm (TCP only).
    pub no_delay: Option<bool>,
}

/// The receiving role's configuration, as sent to the peer.
#[derive(Clone, Copy, Debug, PartialEq, Eq)]
pub struct DownloadConfiguration {
    pub family: Family,
    pub test_id: [u8; 16],
    pub streams: u8,
    pub length: u32,
    pub receive_buffer: u32,
}

/// The length asked for (its low 32 bits), or the family's default where none is.
pub open spec fn requested_length(request: ConfigurationRequest) -> u32 {
    if request.length as u32 == 0 {
        if request.udp {
            1024u32
        } else {
            32768u32
        }
    } else {
        request.length as u32
    }
}

/// A buffer size asked for (low 32 bits); one that is set but smaller than the
/// length becomes twice the length.
pub open spec fn adjusted_buffer(buffer: usize, length: u32) -> u32 {
    if buffer as u32 != 0 && (buffer as u32) < length {
        (length * 2) as u32
    } else {
        buffer as u32
    }
}

/// Buffers are widened only where they cannot hold the length: an unset buffer
/// stays unset, a buffer at least as large as the length is kept as asked, and a
/// set buffer smaller than the length becomes twice the length. Whatever is set
/// afterwards holds the length.
pub proof fn lemma_buffer_widening(buffer: usize, length: u32)
    requires
        buffer_adjustable(buffer, length),
    ensures
        buffer as u32 == 0 ==> adjusted_buffer(buffer, length) == 0,
        (buffer as u32) >= length ==> adjusted_buffer(buffer, length) == buffer as u32,
        0 < (buffer as u32) && (buffer as u32) < length ==> adjusted_buffer(buffer, length) == 2 * length,
        adjusted_buffer(buffer, length) == 0 || adjusted_buffer(buffer, length) >= length,
        adjusted_buffer(buffer, length) == 0 <==> buffer as u32 == 0,
{
}

/// Whether adjusting the buffer stays within 32 bits.
pub open spec fn buffer_adjustable(buffer: usize, length: u32) -> bool {
    (buffer as u32 != 0 && (buffer as u32) < length) ==> length * 2 <= u32::MAX
}

/// The payload length that goes on the wire: for UDP the low 16 bits, raised to
/// the header size; for TCP raised to the header size.
pub open spec fn wire_length(udp: bool, length: u32) -> u32 {
    if udp {
        if (length as u16) < UDP_TEST_HEADER_SIZE {
            UDP_TEST_HEADER_SIZE as u32
        } else {
            (length as u16) as u32
        }
    } else {
        if (length as usize) < TCP_TEST_HEADER_SIZE {
            TCP_TEST_HEADER_SIZE as u32
        } else {
            length
        }
    }
}

fn adjust_buffer(buffer: usize, length: u32) -> (r: u32)
    requires
        buffer_adjustable(buffer, length),
    ensures
        r == adjusted_buffer(buffer, length),
{
    let b = buffer as u32;
    if b != 0 && b < length {
        length * 2
    } else {
        b
    }
}

fn request_length(request: &ConfigurationRequest) -> (r: u32)
    ensures
        r == requested_length(*request),
{
    let l = request.length as u32;
    if l == 0 {
        if request.udp {
            1024
        } else {
            32768
        }
    } else {
        l
    }
}

/// The upload role of a TCP test.
fn prepare_configuration_tcp_upload(
    test_id: &[u8; 16],
    streams: u8,
    bandwidth: u64,
    length: usize,
    send_buffer: u32,
    no_delay: bool,
) -> (r: UploadConfiguration)
    requires
        length <= u32::MAX,
    ensures
        r == (UploadConfiguration {
            family: Family::Tcp,
            test_id: *test_id,
            streams: if streams > 0 { streams } else { 1u8 },
            bandwidth: if bandwidth > 0 { bandwidth } else { 1024u64 },
            length: (if length < TCP_TEST_HEADER_SIZE { TCP_TEST_HEADER_SIZE } else { length }) as u32,
            send_buffer,
            no_delay: Some(no_delay),
        }),
{
    UploadConfiguration {
        family: Family::Tcp,
        test_id: *test_id,
        streams: validate_streams(streams),
        bandwidth: validate_bandwidth(bandwidth),
        length: calculate_length_tcp(length) as u32,
        send_buffer,
        no_delay: Some(no_delay),
    }
}

/// The download role of a TCP test.
fn prepare_configuration_tcp_download(
    test_id: &[u8; 16],
    streams: u8,
    length: usize,
    receive_buffer: u32,
) -> (r: DownloadConfiguration)
    requires
        length <= u32::MAX,
    ensures
        r == (DownloadConfiguration {
            family: Family::Tcp,
            test_id: *test_id,
            streams: if streams > 0 { streams } else { 1u8 },
            length: (if length < TCP_TEST_HEADER_SIZE { TCP_TEST_HEADER_SIZE } else { length }) as u32,
            receive_buffer,
        }),
{
    DownloadConfiguration {
        family: Family::Tcp,
        test_id: *test_id,
        streams: validate_streams(streams),
        length: calculate_length_tcp(length) as u32,
        receive_buffer,
    }
}

/// The upload role of a UDP test.
fn prepare_configuration_udp_upload(
    test_id: &[u8; 16],
    streams: u8,
    bandwidth: u64,
    length: u16,
    send_buffer: u32,
) -> (r: UploadConfiguration)
    ensures
        r == (UploadConfiguration {
            family: Family::Udp,
            test_id: *test_id,
            streams: if streams > 0 { streams } else { 1u8 },
            bandwidth: if bandwidth > 0 { bandwidth } else { 1024u64 },
            length: (if length < UDP_TEST_HEADER_SIZE { UDP_TEST_HEADER_SIZE } else { length }) as u32,
            send_buffer,
            no_delay: None,
        }),
{
    UploadConfiguration {
        family: Family::Udp,
        test_id: *test_id,
        streams: validate_streams(streams),
        bandwidth: validate_bandwidth(bandwidth),
        length: calculate_length_udp(length) as u32,
        send_buffer,
        no_delay: None,
    }
}

/// The download role of a UDP test.
fn prepare_configuration_udp_download(
    test_id: &[u8; 16],
    streams: u8,
    length: u16,
    receive_buffer: u32,
) -> (r: DownloadConfiguration)
    ensures
        r == (DownloadConfiguration {
            family: Family::Udp,
            test_id: *test_id,
            streams: if streams > 0 { streams } else { 1u8 },
            length: (if length < UDP_TEST_HEADER_SIZE { UDP_TEST_HEADER_SIZE } else { length }) as u32,
            receive_buffer,
        }),
{
    DownloadConfiguration {
        family: Family::Udp,
        test_id: *test_id,
        streams: validate_streams(streams),
        length: calculate_length_udp(length) as u32,
        receive_buffer,
    }
}

/// The configuration of the sending role of a test: the streams asked for (low
/// eight bits, none meaning one), the bandwidth (none meaning 1024 bytes per
/// second), the length (none meaning the family's default, then raised to the
/// header size), and a send buffer widened where it is set but too small.
pub fn prepare_upload_configuration(
    request: &ConfigurationRequest,
    test_id: &[u8; 16],
    bandwidth: u64,
) -> (r: UploadConfiguration)
    requires
        buffer_adjustable(request.send_buffer, requested_length(*request)),
    ensures
        r.family == (if request.udp { Family::Udp } else { Family::Tcp }),
        r.test_id == *test_id,
        r.streams == (if request.parallel as u8 > 0 { request.parallel as u8 } else { 1u8 }),
        r.bandwidth == (if bandwidth > 0 { bandwidth } else { 1024u64 }),
        r.length == wire_length(request.udp, requested_length(*request)),
        r.send_buffer == adjusted_buffer(request.send_buffer, requested_length(*request)),
        r.no_delay == (if request.udp { None } else { Some(request.no_delay) }),
{
    let parallel_streams = request.parallel as u8;
    let length = request_length(request);
    let send_buffer = adjust_buffer(request.send_buffer, length);
    if request.udp {
        prepare_configuration_udp_upload(
            test_id,
            parallel_streams,
            bandwidth,
            length as u16,
            send_buffer,
        )
    } else {
        prepare_configuration_tcp_upload(
            test_id,
            parallel_streams,
            bandwidth,
            length as usize,
            send_buffer,
            request.no_delay,
        )
    }
}

/// The configuration of the receiving role of a test, with the same rules for
/// the streams and the length, and a receive buffer widened where it is set but
/// too small.
pub fn prepare_download_configuration(request: &ConfigurationRequest, test_id: &[u8; 16]) -> (r:
    DownloadConfiguration)
    requires
        buffer_adjustable(request.receive_buffer, requested_length(*request)),
    ensures
        r.family == (if request.udp { Family::Udp } else { Family::Tcp }),
        r.test_id == *test_id,
        r.streams == (if request.parallel as u8 > 0 { request.parallel as u8 } else { 1u8 }),
        r.length == wire_length(request.udp, requested_length(*request)),
        r.receive_buffer == adjusted_buffer(request.receive_buffer, requested_length(*request)),
{
    let parallel_streams = request.parallel as u8;
    let length = request_length(request);
    let receive_buffer = adjust_buffer(request.receive_buffer, length);
    if request.udp {
        prepare_configuration_udp_download(test_id, parallel_streams, length as u16, receive_buffer)
    } else {
        prepare_configuration_tcp_download(test_id, parallel_streams, length as usize, receive_buffer)
    }
}

/// What a test's final report says of the configuration that both roles share.
#[derive(Clone, Copy, Debug, PartialEq, Eq)]
pub struct CommonReport {
    pub family: Family,
    pub length: u32,
    pub streams: u8,
}

/// What a test's final report says of the sending role's configuration, beside
/// the duration and the send interval: the send buffer only where one was set.
#[derive(Clone, Copy, Debug, PartialEq, Eq)]
pub struct UploadReport {
    pub bandwidth: u64,
    pub send_buffer: Option<u32>,
    pub no_delay: Option<bool>,
}

/// What a test's final report says of the receiving role's configuration: the
/// receive buffer only where one was set.
#[derive(Clone, Copy, Debug, PartialEq, Eq)]
pub struct DownloadReport {
    pub receive_buffer: Option<u32>,
}

/// The shared part of a test's configuration, for its final report.
pub fn common_report(upload: &UploadConfiguration) -> (r: CommonReport)
    ensures
        r == (CommonReport { family: upload.family, length: upload.length, streams: upload.streams }),
{
    CommonReport { family: upload.family, length: upload.length, streams: upload.streams }
}

/// The sending role's part of a test's configuration, for its final report.
pub fn upload_report(upload: &UploadConfiguration) -> (r: UploadReport)
    ensures
        r.bandwidth == upload.bandwidth,
        r.send_buffer == (if upload.send_buffer == 0 {
            None
        } else {
            Some(upload.send_buffer)
        }),
        r.no_delay == upload.no_delay,
{
    let send_buffer = if upload.send_buffer == 0 {
        None
    } else {
        Some(upload.send_buffer)
    };
    UploadReport { bandwidth: upload.bandwidth, send_buffer, no_delay: upload.no_delay }
}

/// The receiving role's part of a test's configuration, for its final report.
pub fn download_report(download: &DownloadConfiguration) -> (r: DownloadReport)
    ensures
        r.receive_buffer == (if download.receive_buffer == 0 {
            None
        } else {
            Some(download.receive_buffer)
        }),
{
    if download.receive_buffer == 0 {
        DownloadReport { receive_buffer: None }
    } else {
        DownloadReport { receive_buffer: Some(download.receive_buffer) }
    }
}

/// Whether `buffer_adjustable` holds, for callers that must check it first.
pub fn buffer_is_adjustable(buffer: usize, request: &ConfigurationRequest) -> (r: bool)
    ensures
        r == buffer_adjustable(buffer, requested_length(*request)),
{
    let length = request_length(request);
    let b = buffer as u32;
    !(b != 0 && b < length) || length <= u32::MAX / 2
}

} // verus!
