use rperf::stream::port_spec::{bind_order, parse_port_spec, parse_u16, parse_usize, port_spec_is_valid, sort_ports, split_bytes};
use rperf::stream::tcp::TcpPortPool;
use rperf::stream::udp::UdpPortPool;

#[test]
fn ranges_and_single_ports() {
    assert_eq!(parse_port_spec("1-10,19,21"), vec![1, 2, 3, 4, 5, 6, 7, 8, 9, 10, 19, 21]);
}

#[test]
fn ports_come_out_sorted_with_repeats() {
    assert_eq!(parse_port_spec("21,19,3-5,4"), vec![3, 4, 4, 5, 19, 21]);
}

#[test]
fn empty_specification_lists_nothing() {
    assert!(parse_port_spec("").is_empty());
    assert!(port_spec_is_valid(""));
}

#[test]
fn backwards_range_is_empty() {
    assert_eq!(parse_port_spec("9-5,7"), vec![7]);
}

#[test]
fn middle_parts_of_a_range_are_not_read() {
    assert!(port_spec_is_valid("1-x-3"));
    assert_eq!(parse_port_spec("1-x-3"), vec![1, 2, 3]);
}

#[test]
fn full_range_edges() {
    let ports = parse_port_spec("65534-65535,0");
    assert_eq!(ports, vec![0, 65534, 65535]);
}

#[test]
fn invalid_specifications() {
    assert!(!port_spec_is_valid("abc"));
    assert!(!port_spec_is_valid("1,,2"));
    assert!(!port_spec_is_valid("70000"));
    assert!(!port_spec_is_valid("5-"));
    assert!(!port_spec_is_valid("-5"));
    assert!(!port_spec_is_valid(" 5"));
    assert!(port_spec_is_valid("+5"));
    assert!(port_spec_is_valid("1-2,3"));
}

#[test]
fn u16_parse_matches_std() {
    for s in ["", "+", "0", "+7", "007", "65535", "65536", "-1", "12a", "99999999999999999999"] {
        assert_eq!(parse_u16(s.as_bytes()), s.parse::<u16>().ok(), "{}", s);
    }
}

#[test]
fn usize_parse_matches_std() {
    for s in ["", "+", "0", "+42", "18446744073709551615", "18446744073709551616", "x1"] {
        assert_eq!(parse_usize(s.as_bytes()), s.parse::<usize>().ok(), "{}", s);
    }
}

#[test]
fn split_keeps_empty_pieces() {
    let pieces = split_bytes(b",a,,b,", b',');
    let expected: Vec<Vec<u8>> = vec![vec![], vec![b'a'], vec![], vec![b'b'], vec![]];
    assert_eq!(pieces, expected);
}

#[test]
fn counting_sort() {
    assert_eq!(sort_ports(vec![5, 1, 65535, 0, 1]), vec![0, 1, 1, 5, 65535]);
    assert!(sort_ports(vec![]).is_empty());
}

#[test]
fn search_order_wraps_round() {
    assert_eq!(bind_order(4, 0), vec![1, 2, 3, 0]);
    assert_eq!(bind_order(4, 2), vec![3, 0, 1, 2]);
    assert_eq!(bind_order(1, 0), vec![0]);
}

#[test]
fn tcp_pool_searches_after_last_bound() {
    let mut pool = TcpPortPool::new("5000-5003", "");
    assert_eq!(pool.ports_ip4, vec![5000, 5001, 5002, 5003]);
    assert!(pool.ports_ip6.is_empty());
    assert_eq!(pool.bind_order(false), vec![1, 2, 3, 0]);
    assert!(pool.bind_order(true).is_empty());
    pool.mark_bound(false, 2);
    assert_eq!(pool.bind_order(false), vec![3, 0, 1, 2]);
}

#[test]
fn udp_pool_searches_after_last_bound() {
    let mut pool = UdpPortPool::new("", "7,9");
    assert!(pool.ports_ip4.is_empty());
    assert_eq!(pool.ports_ip6, vec![7, 9]);
    assert_eq!(pool.bind_order(true), vec![1, 0]);
    pool.mark_bound(true, 1);
    assert_eq!(pool.bind_order(true), vec![0, 1]);
}
