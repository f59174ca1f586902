use statsd_mock::endpoint::{CaptureConfig, EndpointError, LocalAddr, StatsDServer, DRAIN_MS, RECV_TIMEOUT_MS};
use statsd_mock::start;
use statsd_mock::text::{join_lines, push_decimal};

fn loopback(port: u16) -> LocalAddr {
    LocalAddr { ip: [127, 0, 0, 1], port }
}

#[test]
fn test_get_addr() {
    let mock = start(loopback(34254)).unwrap();

    assert_eq!(mock.addr().contains("127.0.0.1:"), true);
}

#[test]
fn addr_is_loopback_and_port() {
    let mock = start(loopback(8125)).unwrap();
    assert_eq!(mock.addr(), "127.0.0.1:8125");
}

#[test]
fn addr_with_largest_port() {
    let mock = start(loopback(65535)).unwrap();
    assert_eq!(mock.addr(), "127.0.0.1:65535");
}

#[test]
fn addr_is_the_same_each_time() {
    let mock = start(loopback(40001)).unwrap();
    let first = mock.addr();
    let second = mock.addr();
    let third = mock.addr();
    assert_eq!(first, second);
    assert_eq!(second, third);
}

#[test]
fn start_refuses_other_hosts() {
    let bound = LocalAddr { ip: [10, 0, 0, 1], port: 8125 };
    assert_eq!(start(bound).err(), Some(EndpointError::NotLoopback));
}

#[test]
fn start_refuses_port_zero() {
    assert_eq!(start(loopback(0)).err(), Some(EndpointError::NoPort));
}

#[test]
fn start_uses_standard_timing() {
    let mock = start(loopback(9000)).unwrap();
    assert_eq!(mock.config().recv_timeout(), 100);
    assert_eq!(mock.config().drain(), 200);
    assert_eq!(RECV_TIMEOUT_MS, 100);
    assert_eq!(DRAIN_MS, 200);
    assert_eq!(mock.local_addr().port, 9000);
}

#[test]
fn custom_timing() {
    let config = CaptureConfig::new(20, 50).unwrap();
    assert_eq!(config.recv_timeout(), 20);
    assert_eq!(config.drain(), 50);
    let mock = StatsDServer::new(loopback(9001), config).unwrap();
    assert_eq!(mock.config(), config);
}

#[test]
fn timing_needs_drain_longer_than_timeout() {
    assert_eq!(CaptureConfig::new(100, 100), None);
    assert_eq!(CaptureConfig::new(200, 100), None);
    assert_eq!(CaptureConfig::new(0, 100), None);
}

#[test]
fn other_address_text() {
    let a = LocalAddr { ip: [192, 168, 10, 255], port: 7 };
    assert_eq!(a.text(), "192.168.10.255:7");
}

#[test]
fn decimal_forms() {
    let mut s = String::from("n=");
    push_decimal(&mut s, 0);
    assert_eq!(s, "n=0");
    let mut t = String::new();
    push_decimal(&mut t, 4294967295);
    assert_eq!(t, "4294967295");
    let mut u = String::new();
    push_decimal(&mut u, 1020);
    assert_eq!(u, "1020");
}

#[test]
fn join_puts_newlines_between() {
    let v = vec![String::from("a"), String::from("bc"), String::from("d")];
    assert_eq!(join_lines(v), "a\nbc\nd");
}

#[test]
fn join_of_nothing_is_empty() {
    assert_eq!(join_lines(Vec::new()), "");
}

#[test]
fn join_of_one_is_that_line() {
    assert_eq!(join_lines(vec![String::from("x:1|c")]), "x:1|c");
}

#[test]
fn join_keeps_empty_lines() {
    let v = vec![String::new(), String::new()];
    assert_eq!(join_lines(v), "\n");
}
