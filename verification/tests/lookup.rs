use redis_rust_proxy::addr::{contains_addr, CacheAddr};
use redis_rust_proxy::redis_tools::{find_master, ProbeOutcome, Search};
use redis_rust_proxy::transfer::{LookupAction, LookupEvent, MasterLookup};

fn v4(last: u8, port: u16) -> CacheAddr {
    CacheAddr::V4 { ipv4: u32::from_be_bytes([10, 0, 0, last]), port }
}

#[test]
fn addresses_compare_by_all_parts() {
    let list = vec![v4(1, 6379), v4(2, 6379)];
    assert!(contains_addr(&list, &v4(2, 6379)));
    assert!(!contains_addr(&list, &v4(2, 6380)));
    let a = CacheAddr::V6 { ipv6: 1, port: 6379, flowinfo: 0, scope_id: 0 };
    let b = CacheAddr::V6 { ipv6: 1, port: 6379, flowinfo: 0, scope_id: 3 };
    assert!(contains_addr(&vec![a], &a));
    assert!(!contains_addr(&vec![a], &b));
}

#[test]
fn find_master_asks_in_order() {
    let caches = vec![v4(1, 1), v4(2, 2), v4(3, 3)];
    assert_eq!(find_master(&caches, &vec![]), Search::Probe(0));
    assert_eq!(find_master(&caches, &vec![ProbeOutcome::Failed]), Search::Probe(1));
    assert_eq!(
        find_master(&caches, &vec![ProbeOutcome::NotMaster, ProbeOutcome::Failed]),
        Search::Probe(2)
    );
}

#[test]
fn find_master_takes_first_master() {
    let caches = vec![v4(1, 1), v4(2, 2), v4(3, 3)];
    let outcomes = vec![ProbeOutcome::Failed, ProbeOutcome::Master, ProbeOutcome::Master];
    assert_eq!(find_master(&caches, &outcomes), Search::Found(v4(2, 2)));
    assert_eq!(
        find_master(&caches, &vec![ProbeOutcome::Failed, ProbeOutcome::Master]),
        Search::Found(v4(2, 2))
    );
}

#[test]
fn find_master_reports_none() {
    let caches = vec![v4(1, 1), v4(2, 2)];
    let outcomes = vec![ProbeOutcome::NotMaster, ProbeOutcome::Failed];
    assert_eq!(find_master(&caches, &outcomes), Search::NotFound);
    assert_eq!(find_master(&vec![], &vec![]), Search::NotFound);
}

fn drive(lookup: &mut MasterLookup, sentinel: Option<CacheAddr>, known: ProbeOutcome, answers: &[ProbeOutcome]) -> (LookupAction, usize) {
    let mut asked = 0;
    let mut next_answer = 0;
    let mut checked_known = false;
    loop {
        match lookup.next_action() {
            LookupAction::QuerySentinel => {
                asked += 1;
                lookup.handle(match sentinel {
                    Some(a) => LookupEvent::SentinelAnswered(a),
                    None => LookupEvent::SentinelFailed,
                });
            }
            LookupAction::Probe(_) => {
                asked += 1;
                if !checked_known {
                    checked_known = true;
                    lookup.handle(LookupEvent::Probed(known));
                } else {
                    lookup.handle(LookupEvent::Probed(answers[next_answer]));
                    next_answer += 1;
                }
            }
            proxy => return (proxy, asked),
        }
    }
}

#[test]
fn sentinel_answer_is_used() {
    let mut lookup = MasterLookup::new(v4(1, 1), vec![v4(1, 1), v4(2, 2)]);
    let (action, asked) = drive(&mut lookup, Some(v4(2, 2)), ProbeOutcome::Master, &[]);
    assert_eq!(action, LookupAction::Proxy { master: v4(2, 2), changed: true });
    assert_eq!(asked, 1);
    let mut same = MasterLookup::new(v4(1, 1), vec![v4(1, 1)]);
    let (action, _) = drive(&mut same, Some(v4(1, 1)), ProbeOutcome::Failed, &[]);
    assert_eq!(action, LookupAction::Proxy { master: v4(1, 1), changed: false });
}

#[test]
fn known_master_is_kept_when_sentinel_is_down() {
    let mut lookup = MasterLookup::new(v4(1, 1), vec![v4(1, 1), v4(2, 2)]);
    assert_eq!(lookup.next_action(), LookupAction::QuerySentinel);
    lookup.handle(LookupEvent::SentinelFailed);
    assert_eq!(lookup.next_action(), LookupAction::Probe(v4(1, 1)));
    lookup.handle(LookupEvent::Probed(ProbeOutcome::Master));
    assert_eq!(lookup.next_action(), LookupAction::Proxy { master: v4(1, 1), changed: false });
}

#[test]
fn discovered_caches_are_searched() {
    let mut lookup = MasterLookup::new(v4(1, 1), vec![v4(1, 1), v4(2, 2), v4(3, 3)]);
    let answers = [ProbeOutcome::Failed, ProbeOutcome::NotMaster, ProbeOutcome::Master];
    let (action, asked) = drive(&mut lookup, None, ProbeOutcome::Failed, &answers);
    assert_eq!(action, LookupAction::Proxy { master: v4(3, 3), changed: true });
    assert_eq!(asked, 5);
}

#[test]
fn last_known_master_is_the_fallback() {
    let mut lookup = MasterLookup::new(v4(1, 1), vec![v4(1, 1), v4(2, 2)]);
    let answers = [ProbeOutcome::Failed, ProbeOutcome::NotMaster];
    let (action, asked) = drive(&mut lookup, None, ProbeOutcome::NotMaster, &answers);
    assert_eq!(action, LookupAction::Proxy { master: v4(1, 1), changed: false });
    assert_eq!(asked, 4);
    let mut empty = MasterLookup::new(v4(1, 1), vec![]);
    let (action, asked) = drive(&mut empty, None, ProbeOutcome::Failed, &[]);
    assert_eq!(action, LookupAction::Proxy { master: v4(1, 1), changed: false });
    assert_eq!(asked, 2);
}

#[test]
fn unrequested_events_change_nothing() {
    let mut lookup = MasterLookup::new(v4(1, 1), vec![v4(2, 2)]);
    lookup.handle(LookupEvent::Probed(ProbeOutcome::Master));
    assert_eq!(lookup.next_action(), LookupAction::QuerySentinel);
    lookup.handle(LookupEvent::SentinelAnswered(v4(2, 2)));
    lookup.handle(LookupEvent::SentinelAnswered(v4(3, 3)));
    assert_eq!(lookup.next_action(), LookupAction::Proxy { master: v4(2, 2), changed: true });
}
