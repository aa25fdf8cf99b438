use rperf::protocol::configuration::{calculate_length_udp, validate_bandwidth, validate_streams};
use rperf::protocol::messaging::{
    buffer_is_adjustable, calculate_length_tcp, prepare_download_configuration,
    prepare_upload_configuration, split_bandwidth, BandwidthUnit, ConfigurationRequest, Family,
    common_report, download_report, upload_report, CommonReport,
};
use rperf::stream::{interval_over, receive_timed_out};

#[test]
fn streams_default_to_one() {
    assert_eq!(validate_streams(0), 1);
    assert_eq!(validate_streams(4), 4);
    assert_eq!(validate_streams(255), 255);
}

#[test]
fn bandwidth_defaults_to_1024() {
    assert_eq!(validate_bandwidth(0), 1024);
    assert_eq!(validate_bandwidth(125000), 125000);
}

#[test]
fn udp_length_holds_the_header() {
    assert_eq!(calculate_length_udp(0), 36);
    assert_eq!(calculate_length_udp(35), 36);
    assert_eq!(calculate_length_udp(36), 36);
    assert_eq!(calculate_length_udp(1024), 1024);
    assert_eq!(rperf::protocol::messaging::calculate_length_udp(10u16), 36u16);
    assert_eq!(rperf::protocol::messaging::calculate_length_udp(1500u16), 1500u16);
}

#[test]
fn tcp_length_holds_the_header() {
    assert_eq!(calculate_length_tcp(0), 16);
    assert_eq!(calculate_length_tcp(15), 16);
    assert_eq!(calculate_length_tcp(32768), 32768);
}

#[test]
fn bandwidth_units_split_off() {
    let (number, unit) = split_bandwidth("10m").unwrap();
    assert_eq!(number, "10");
    assert_eq!(unit, BandwidthUnit::Megabits);
    assert_eq!(unit.multiplier(), (1_000_000, 8));

    let (number, unit) = split_bandwidth("2.5G").unwrap();
    assert_eq!(number, "2.5");
    assert_eq!(unit, BandwidthUnit::Gigabytes);
    assert_eq!(unit.multiplier(), (1_000_000_000, 1));

    let (number, unit) = split_bandwidth("125000").unwrap();
    assert_eq!(number, "125000");
    assert_eq!(unit, BandwidthUnit::Bytes);
    assert_eq!(unit.multiplier(), (1, 1));

    let (number, unit) = split_bandwidth("7k").unwrap();
    assert_eq!(number, "7");
    assert_eq!(unit, BandwidthUnit::Kilobits);
    assert_eq!(unit.multiplier(), (1000, 8));

    let (_, unit) = split_bandwidth("7K").unwrap();
    assert_eq!(unit, BandwidthUnit::Kilobytes);
    let (_, unit) = split_bandwidth("7M").unwrap();
    assert_eq!(unit, BandwidthUnit::Megabytes);
    let (_, unit) = split_bandwidth("7g").unwrap();
    assert_eq!(unit, BandwidthUnit::Gigabits);

    assert!(split_bandwidth("").is_none());
}

fn request(udp: bool, length: usize, send_buffer: usize, receive_buffer: usize) -> ConfigurationRequest {
    ConfigurationRequest { parallel: 2, length, send_buffer, receive_buffer, udp, no_delay: true }
}

#[test]
fn tcp_upload_configuration() {
    let id = [7u8; 16];
    let c = prepare_upload_configuration(&request(false, 0, 0, 0), &id, 0);
    assert_eq!(c.family, Family::Tcp);
    assert_eq!(c.test_id, id);
    assert_eq!(c.streams, 2);
    assert_eq!(c.bandwidth, 1024);
    assert_eq!(c.length, 32768);
    assert_eq!(c.send_buffer, 0);
    assert_eq!(c.no_delay, Some(true));

    // a send buffer smaller than the length is widened to twice the length
    let c = prepare_upload_configuration(&request(false, 1000, 10, 0), &id, 5000);
    assert_eq!(c.length, 1000);
    assert_eq!(c.send_buffer, 2000);
    assert_eq!(c.bandwidth, 5000);

    // the length is raised to the header size
    let c = prepare_upload_configuration(&request(false, 4, 0, 0), &id, 1);
    assert_eq!(c.length, 16);
}

#[test]
fn udp_upload_configuration() {
    let id = [1u8; 16];
    let c = prepare_upload_configuration(&request(true, 0, 100, 0), &id, 125000);
    assert_eq!(c.family, Family::Udp);
    assert_eq!(c.length, 1024);
    assert_eq!(c.send_buffer, 2048);
    assert_eq!(c.no_delay, None);

    // the length keeps its low sixteen bits on the wire
    let c = prepare_upload_configuration(&request(true, 65536 + 20, 0, 0), &id, 1);
    assert_eq!(c.length, 36);
    let c = prepare_upload_configuration(&request(true, 65536 + 100, 0, 0), &id, 1);
    assert_eq!(c.length, 100);
}

#[test]
fn download_configurations() {
    let id = [2u8; 16];
    let mut r = request(true, 500, 0, 100);
    r.parallel = 256; // low eight bits: none, which means one
    let c = prepare_download_configuration(&r, &id);
    assert_eq!(c.family, Family::Udp);
    assert_eq!(c.streams, 1);
    assert_eq!(c.length, 500);
    assert_eq!(c.receive_buffer, 1000);

    let c = prepare_download_configuration(&request(false, 0, 0, 70000), &id);
    assert_eq!(c.family, Family::Tcp);
    assert_eq!(c.length, 32768);
    assert_eq!(c.receive_buffer, 70000);
}

#[test]
fn buffer_widening_must_fit() {
    let r = request(false, 3_000_000_000, 5, 0);
    assert!(!buffer_is_adjustable(5, &r));
    assert!(buffer_is_adjustable(0, &r));
    assert!(buffer_is_adjustable(3_000_000_001, &r));
}

#[test]
fn reports_show_buffers_only_where_set() {
    let request = ConfigurationRequest {
        parallel: 2,
        length: 0,
        send_buffer: 0,
        receive_buffer: 100_000,
        udp: false,
        no_delay: true,
    };
    let id = [7u8; 16];
    let upload = prepare_upload_configuration(&request, &id, 1000);
    let download = prepare_download_configuration(&request, &id);
    assert_eq!(common_report(&upload), CommonReport { family: Family::Tcp, length: 32768, streams: 2 });
    let shown = upload_report(&upload);
    assert_eq!(shown.bandwidth, 1000);
    assert_eq!(shown.send_buffer, None);
    assert_eq!(shown.no_delay, Some(true));
    assert_eq!(download_report(&download).receive_buffer, Some(100_000));
    let udp = ConfigurationRequest { udp: true, receive_buffer: 0, send_buffer: 5000, ..request };
    let upload = prepare_upload_configuration(&udp, &id, 1000);
    assert_eq!(common_report(&upload).family, Family::Udp);
    assert_eq!(upload_report(&upload).send_buffer, Some(5000));
    assert_eq!(upload_report(&upload).no_delay, None);
    assert_eq!(download_report(&prepare_download_configuration(&udp, &id)).receive_buffer, None);
}

#[test]
fn intervals_and_receive_timeouts() {
    assert!(!interval_over(999_999_999));
    assert!(interval_over(1_000_000_000));
    assert!(!receive_timed_out(2_999_999_999));
    assert!(receive_timed_out(3_000_000_000));
}
