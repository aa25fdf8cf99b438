use rperf::args::{ArgVerbosity, Format};
use rperf::client::{classify_server_message, display_mode, is_alive, kill, start_kill_timer, ClientLifecycle, DisplayMode, ServerMessage, KILL_TIMEOUT};
use rperf::protocol::results::TextField;
use rperf::server::{classify_client_message, is_download_role, is_udp_family, on_begin, BeginAction, ClientMessage, ServerLifecycle};
use rperf::utils::cpu_affinity::{AffinityError, CpuAffinityManager};

#[test]
fn client_kill_and_timer() {
    let mut l = ClientLifecycle::new();
    assert!(is_alive(&l, 100));
    start_kill_timer(&mut l, 100, KILL_TIMEOUT);
    assert_eq!(l.kill_timer, 105);
    assert!(is_alive(&l, 104));
    assert!(!is_alive(&l, 105));
    assert!(kill(&mut l));
    assert!(!kill(&mut l));
    assert!(!is_alive(&l, 0));
}

#[test]
fn server_kill() {
    let mut l = ServerLifecycle::new();
    assert!(rperf::server::is_alive(&l));
    assert!(rperf::server::kill(&mut l));
    assert!(!rperf::server::kill(&mut l));
    assert!(!rperf::server::is_alive(&l));
}

#[test]
fn formats_and_verbosity() {
    assert_eq!(Format::Json.to_string(), "json");
    assert_eq!(Format::Megabit.to_string(), "megabit/sec");
    assert_eq!(Format::Megabyte.to_string(), "megabyte/sec");
    assert_eq!(Format::default(), Format::Json);
    assert_eq!(ArgVerbosity::Off.to_string(), "off");
    assert_eq!(ArgVerbosity::Error.to_string(), "error");
    assert_eq!(ArgVerbosity::Warn.to_string(), "warn");
    assert_eq!(ArgVerbosity::Info.to_string(), "info");
    assert_eq!(ArgVerbosity::Debug.to_string(), "debug");
    assert_eq!(ArgVerbosity::Trace.to_string(), "trace");
    assert_eq!(ArgVerbosity::default(), ArgVerbosity::Info);
    assert!(ArgVerbosity::Off < ArgVerbosity::Trace);
    assert_eq!(display_mode(Format::Json), DisplayMode { json: true, bit: false });
    assert_eq!(display_mode(Format::Megabit), DisplayMode { json: false, bit: true });
    assert_eq!(display_mode(Format::Megabyte), DisplayMode { json: false, bit: false });
}

fn text(s: &str) -> TextField {
    TextField::Text(s.to_string())
}

#[test]
fn message_kinds() {
    assert_eq!(classify_server_message(&text("connect")), ServerMessage::Connect);
    assert_eq!(classify_server_message(&text("connect-ready")), ServerMessage::ConnectReady);
    assert_eq!(classify_server_message(&text("receive")), ServerMessage::Receive);
    assert_eq!(classify_server_message(&text("send")), ServerMessage::Send);
    assert_eq!(classify_server_message(&text("done")), ServerMessage::Done);
    assert_eq!(classify_server_message(&text("failed")), ServerMessage::Failed);
    assert_eq!(classify_server_message(&text("hello")), ServerMessage::Unknown);
    assert_eq!(classify_server_message(&TextField::NotText), ServerMessage::Unknown);
    assert_eq!(classify_server_message(&TextField::Absent), ServerMessage::NoKind);
    assert_eq!(classify_client_message(&text("configuration")), ClientMessage::Configuration);
    assert_eq!(classify_client_message(&text("begin")), ClientMessage::Begin);
    assert_eq!(classify_client_message(&text("end")), ClientMessage::End);
    assert_eq!(classify_client_message(&text("connect")), ClientMessage::Invalid);
    assert_eq!(classify_client_message(&TextField::Absent), ClientMessage::Invalid);
    assert!(is_download_role(&TextField::Absent));
    assert!(is_download_role(&text("download")));
    assert!(!is_download_role(&text("upload")));
    assert!(is_udp_family(&text("udp")));
    assert!(!is_udp_family(&TextField::Absent));
    assert!(!is_udp_family(&text("tcp")));
}

#[test]
fn begin_only_once() {
    let mut started = false;
    assert_eq!(on_begin(&mut started), BeginAction::StartStreams);
    assert!(started);
    assert_eq!(on_begin(&mut started), BeginAction::Duplicate);
}

#[test]
fn affinity_lists() {
    let available = vec![0usize, 1, 2, 3];
    assert!(CpuAffinityManager::from_available("1,3", &available).is_ok());
    assert!(CpuAffinityManager::from_available("", &available).is_ok());
    assert!(CpuAffinityManager::from_available(",2,", &available).is_ok());
    assert_eq!(CpuAffinityManager::from_available("1,x", &available).err(), Some(AffinityError::InvalidCoreId));
    assert_eq!(CpuAffinityManager::new("a").err(), Some(AffinityError::InvalidCoreId));
    let mut m = CpuAffinityManager::new("").unwrap();
    m.set_affinity();
}

#[test]
fn only_available_cores_are_enabled() {
    let available = vec![0usize, 1, 2, 3];
    let m = CpuAffinityManager::from_available("3,1,9,,1", &available).unwrap();
    // 9 is not available; 1 is named twice and enabled twice, in the list's order
    assert_eq!(m.cores(), &[3, 1, 1]);
    assert!(m.cores().iter().all(|c| available.contains(c)));
    let none = CpuAffinityManager::from_available("7", &available).unwrap();
    assert!(none.cores().is_empty());
}

#[test]
fn cores_are_handed_out_round_robin() {
    let available = vec![0usize, 1, 2, 3];
    let mut m = CpuAffinityManager::from_available("1,3,2", &available).unwrap();
    assert_eq!(m.next_core(), Some(1));
    assert_eq!(m.next_core(), Some(3));
    assert_eq!(m.next_core(), Some(2));
    assert_eq!(m.next_core(), Some(1));
    let mut none = CpuAffinityManager::from_available("", &available).unwrap();
    assert_eq!(none.next_core(), None);
    assert_eq!(none.set_affinity(), None);
}

#[test]
fn client_limit() {
    assert!(rperf::server::admits_client(0, 0));
    assert!(rperf::server::admits_client(1000, 0));
    assert!(rperf::server::admits_client(1, 2));
    assert!(!rperf::server::admits_client(2, 2));
    assert!(!rperf::server::admits_client(5, 2));
}

#[test]
fn pins_go_round_robin_over_calls() {
    let available = vec![0usize, 1, 2, 3];
    let mut m = CpuAffinityManager::from_available("2,0", &available).unwrap();
    let pins: Vec<Option<usize>> = (0..5).map(|_| m.set_affinity()).collect();
    assert_eq!(pins, vec![Some(2), Some(0), Some(2), Some(0), Some(2)]);
    let mut none = CpuAffinityManager::from_available("5", &available).unwrap();
    assert_eq!(none.set_affinity(), None);
    assert_eq!(none.set_affinity(), None);
}
