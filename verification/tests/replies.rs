use redis::InfoDict;
use redis_rust_proxy::redis_tools::{
    connection_url, get_current_master, join_host_port, get_slave, is_master, try_get_slave, RedisToolsError,
};
use redis_rust_proxy::text::{contains_char, split_str};

fn info(text: &str) -> InfoDict {
    InfoDict::new(text)
}

#[test]
fn split_keeps_empty_pieces() {
    assert_eq!(split_str("a,b,,c,", ','), vec!["a", "b", "", "c", ""]);
    assert_eq!(split_str("", ','), vec![""]);
    assert_eq!(split_str("abc", ','), vec!["abc"]);
    assert_eq!(split_str("é=ü", '='), vec!["é", "ü"]);
}

#[test]
fn master_role_is_recognised() {
    let reply = "# Replication\r\nrole:master\r\nconnected_slaves:1\r\n";
    assert_eq!(is_master(&info(reply)), Some(true));
}

#[test]
fn replica_role_is_not_master() {
    assert_eq!(is_master(&info("# Replication\r\nrole:slave\r\n")), Some(false));
    assert_eq!(is_master(&info("role:masters\r\n")), Some(false));
}

#[test]
fn missing_role_gives_none() {
    assert_eq!(is_master(&info("# Server\r\nredis_version:6.0.9\r\n")), None);
}

#[test]
fn slave_address_is_read_from_slave0() {
    let reply = "# Replication\r\nrole:master\r\nconnected_slaves:1\r\n\
                 slave0:ip=10.0.0.2,port=6380,state=online,offset=42,lag=0\r\n";
    let info = info(reply);
    assert_eq!(get_slave(&info), Ok("10.0.0.2:6380".to_string()));
    assert_eq!(try_get_slave(&info), Some(Ok("10.0.0.2:6380".to_string())));
}

#[test]
fn later_field_replaces_earlier_one() {
    let info = info("slave0:ip=1.1.1.1,port=1,ip=2.2.2.2\r\n");
    assert_eq!(get_slave(&info), Ok("2.2.2.2:1".to_string()));
}

#[test]
fn value_stops_at_second_equals_sign() {
    let info = info("slave0:ip=1.1.1.1=x,port=7000\r\n");
    assert_eq!(get_slave(&info), Ok("1.1.1.1:7000".to_string()));
}

#[test]
fn no_slave_line_is_master_no_slave() {
    let info = info("role:master\r\nconnected_slaves:0\r\n");
    assert_eq!(get_slave(&info), Err(RedisToolsError::MasterNoSlave));
}

#[test]
fn slave_without_port_is_master_no_slave() {
    let info = info("slave0:ip=10.0.0.2,state=online\r\n");
    assert_eq!(get_slave(&info), Err(RedisToolsError::MasterNoSlave));
}

#[test]
fn piece_without_equals_sign_is_refused() {
    assert_eq!(try_get_slave(&info("slave0:ip=10.0.0.2,online\r\n")), None);
    assert_eq!(try_get_slave(&info("slave0:\r\n")), None);
}

#[test]
fn error_message() {
    assert_eq!(RedisToolsError::MasterNoSlave.message(), "Master has no slave");
}

#[test]
fn sentinel_reply_gives_ip_and_port() {
    let reply = vec!["192.168.1.5".to_string(), "6379".to_string()];
    assert_eq!(get_current_master(&reply), Some("192.168.1.5:6379".to_string()));
    let longer = vec!["::1".to_string(), "7000".to_string(), "extra".to_string()];
    assert_eq!(get_current_master(&longer), Some("[::1]:7000".to_string()));
}

#[test]
fn bracketed_sentinel_ip_is_kept() {
    let reply = vec!["[::1]".to_string(), "6379".to_string()];
    assert_eq!(get_current_master(&reply), Some("[::1]:6379".to_string()));
}

#[test]
fn bracketed_slave_ip_is_kept() {
    let info = info("slave0:ip=[fe80::2],port=6380,state=online\r\n");
    assert_eq!(get_slave(&info), Ok("[fe80::2]:6380".to_string()));
}

#[test]
fn short_sentinel_reply_names_no_master() {
    assert_eq!(get_current_master(&vec![]), None);
    assert_eq!(get_current_master(&vec!["10.0.0.1".to_string()]), None);
}

#[test]
fn ipv6_slave_address_is_bracketed() {
    let info = info("slave0:ip=::1,port=6380,state=online,offset=0,lag=0\r\n");
    assert_eq!(get_slave(&info), Ok("[::1]:6380".to_string()));
    let url = connection_url(&get_slave(&info).unwrap()).expect("accepted");
    assert_eq!(url.host_str(), Some("[::1]"));
    assert_eq!(url.port(), Some(6380));
}

#[test]
fn connection_url_is_parsed() {
    let url = connection_url("127.0.0.1:6380").expect("accepted");
    assert_eq!(url.as_str(), "redis://127.0.0.1:6380");
    assert_eq!(url.scheme(), "redis");
    assert_eq!(url.port(), Some(6380));
    let v6 = connection_url("[::1]:6379").expect("accepted");
    assert_eq!(v6.host_str(), Some("[::1]"));
    assert_eq!(v6, redis::parse_redis_url("redis://[::1]:6379").unwrap());
}

#[test]
fn bad_connection_url_is_refused() {
    assert!(connection_url("127.0.0.1:99999").is_err());
    assert!(connection_url("[::1").is_err());
}

#[test]
fn host_and_port_are_joined() {
    assert_eq!(join_host_port("10.1.2.3", "6379"), "10.1.2.3:6379");
    assert_eq!(join_host_port("fe80::1", "26379"), "[fe80::1]:26379");
    assert_eq!(join_host_port("[fe80::1]", "26379"), "[fe80::1]:26379");
    assert!(contains_char("a:b", ':'));
    assert!(!contains_char("a.b", ':'));
    assert!(!contains_char("", ':'));
}
