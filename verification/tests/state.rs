use redis_rust_proxy::addr::CacheAddr;
use redis_rust_proxy::state::{parse_sentinel_timeout, Inner};

fn v4(last: u8, port: u16) -> CacheAddr {
    CacheAddr::V4 { ipv4: u32::from_be_bytes([10, 0, 0, last]), port }
}

fn inner(slave: Option<CacheAddr>) -> Inner {
    Inner::new(
        "mymaster".to_string(),
        v4(9, 26379),
        10,
        v4(1, 6379),
        slave,
        String::new(),
    )
}

#[test]
fn start_state_lists_master_then_replica() {
    let with = inner(Some(v4(2, 6379)));
    assert_eq!(with.discovered_masters, vec![v4(1, 6379), v4(2, 6379)]);
    assert_eq!(with.last_known_master, v4(1, 6379));
    assert_eq!(with.master, "mymaster");
    assert_eq!(with.sentinel_timeout, 10);
    let without = inner(None);
    assert_eq!(without.discovered_masters, vec![v4(1, 6379)]);
}

#[test]
fn adopting_a_new_master_adds_it() {
    let mut state = inner(None);
    assert!(state.adopt_master(v4(3, 6379)));
    assert_eq!(state.last_known_master, v4(3, 6379));
    assert_eq!(state.discovered_masters, vec![v4(1, 6379), v4(3, 6379)]);
    assert!(!state.adopt_master(v4(3, 6379)));
    assert_eq!(state.discovered_masters, vec![v4(1, 6379), v4(3, 6379)]);
}

#[test]
fn adopting_a_known_cache_does_not_list_it_twice() {
    let mut state = inner(Some(v4(2, 6379)));
    assert!(!state.adopt_master(v4(2, 6379)));
    assert_eq!(state.last_known_master, v4(2, 6379));
    assert_eq!(state.discovered_masters, vec![v4(1, 6379), v4(2, 6379)]);
}

#[test]
fn replicas_are_added_once() {
    let mut state = inner(None);
    assert!(state.add_slave(v4(4, 6380)));
    assert!(!state.add_slave(v4(4, 6380)));
    assert!(!state.add_slave(v4(1, 6379)));
    assert_eq!(state.discovered_masters, vec![v4(1, 6379), v4(4, 6380)]);
    assert_eq!(state.last_known_master, v4(1, 6379));
}

#[test]
fn timeout_parses_decimal_milliseconds() {
    assert_eq!(parse_sentinel_timeout("10"), Some(10));
    assert_eq!(parse_sentinel_timeout("+250"), Some(250));
    assert_eq!(parse_sentinel_timeout("0"), Some(0));
    assert_eq!(parse_sentinel_timeout("18446744073709551615"), Some(u64::MAX));
}

#[test]
fn bad_timeouts_are_refused() {
    assert_eq!(parse_sentinel_timeout(""), None);
    assert_eq!(parse_sentinel_timeout("+"), None);
    assert_eq!(parse_sentinel_timeout("-1"), None);
    assert_eq!(parse_sentinel_timeout(" 10"), None);
    assert_eq!(parse_sentinel_timeout("10ms"), None);
    assert_eq!(parse_sentinel_timeout("18446744073709551616"), None);
}
