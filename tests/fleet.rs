use netfetch::addrmap::Addr;
use netfetch::connset::{CaConnSet, CommandQueueSet, StopQueue};
use netfetch::metrics::ExtraInsertsConf;
use netfetch::search::{filter_blacklisted, host_port, is_blacklisted, SearchResult, PORT_DEFAULT};
use netfetch::stats::CheckEvery;
use netfetch::tools::{next_range_end, token_progress, token_ranges};
use netfetch::error::Error;

fn a(ip: u32, port: u16) -> Addr {
    Addr { ip, port }
}

#[test]
fn empty_set_has_no_nth_addr() {
    let s: CaConnSet<u32> = CaConnSet::new();
    assert_eq!(s.addr_nth_mod(0), None);
    assert_eq!(s.addr_nth_mod(5), None);
    assert!(!s.has_addr(a(1, 1)));
}

#[test]
fn nth_addr_follows_address_order() {
    let mut s = CaConnSet::new();
    assert!(s.insert_ress(a(0x0a00_0003, 5064), "c").is_none());
    assert!(s.insert_ress(a(0x0a00_0001, 5065), "a").is_none());
    assert!(s.insert_ress(a(0x0a00_0001, 5064), "z").is_none());
    assert!(s.insert_ress(a(0x0a00_0002, 1), "b").is_none());
    assert_eq!(s.len(), 4);
    assert_eq!(s.addrs(), vec![a(0x0a00_0001, 5064), a(0x0a00_0001, 5065), a(0x0a00_0002, 1), a(0x0a00_0003, 5064)]);
    assert_eq!(s.addr_nth_mod(0), Some(a(0x0a00_0001, 5064)));
    assert_eq!(s.addr_nth_mod(2), Some(a(0x0a00_0002, 1)));
    assert_eq!(s.addr_nth_mod(7), Some(a(0x0a00_0003, 5064)));
    assert_eq!(s.get(a(0x0a00_0001, 5065)), Some(&"a"));
    assert_eq!(s.get(a(0x0a00_0009, 5065)), None);
    assert_eq!(*s.nth_ress(3), "c");
}

#[test]
fn insert_replaces_same_address() {
    let mut s = CaConnSet::new();
    assert!(s.insert_ress(a(7, 7), 1).is_none());
    assert_eq!(s.insert_ress(a(7, 7), 2), Some(1));
    assert_eq!(s.len(), 1);
    assert_eq!(s.get(a(7, 7)), Some(&2));
}

#[test]
fn take_all_empties_the_set() {
    let mut s = CaConnSet::new();
    s.insert_ress(a(2, 1), "two");
    s.insert_ress(a(1, 1), "one");
    let all = s.take_all();
    assert_eq!(all, vec![(a(1, 1), "one"), (a(2, 1), "two")]);
    assert_eq!(s.len(), 0);
    assert_eq!(s.addr_nth_mod(1), None);
    let mut q = StopQueue::new(all.into_iter().map(|e| e.1).collect());
    let first = q.pop_front().unwrap();
    assert_eq!(first, "one");
    assert_eq!(q.requeue(first), 2);
    assert_eq!(q.pop_front(), Some("two"));
    assert_eq!(q.pop_front(), Some("one"));
    assert_eq!(q.pop_front(), None);
    assert_eq!(q.len(), 0);
}

#[test]
fn command_queues_drop_closed_senders() {
    let mut q = CommandQueueSet::new();
    q.insert(a(3, 0), 'c');
    q.insert(a(1, 0), 'a');
    q.insert(a(2, 0), 'b');
    assert_eq!(*q.nth_sender(0), 'a');
    q.queues_locked(&vec![false, true, false]);
    assert_eq!(q.len(), 2);
    assert_eq!(q.get(a(2, 0)), None);
    assert_eq!(q.get(a(3, 0)), Some(&'c'));
    assert_eq!(*q.nth_sender(1), 'c');
}

fn item(ch: &str, resp: Option<Addr>, addr: Option<Addr>) -> SearchResult {
    SearchResult { channel: ch.to_string(), response_addr: resp, addr }
}

#[test]
fn blacklisted_gateways_are_dropped() {
    let gw = vec![a(0x0a00_0001, 5064), a(0x0a00_0002, 5064)];
    let items = vec![
        item("ok", Some(a(0x0a00_0005, 5064)), Some(a(0x0a00_0005, 5064))),
        item("by_gw", Some(a(0x0a00_0001, 5064)), Some(a(0x0a00_0007, 5064))),
        item("to_gw", Some(a(0x0a00_0006, 5064)), Some(a(0x0a00_0002, 5064))),
        item("none", None, None),
        item("other_port", Some(a(0x0a00_0001, 5065)), None),
    ];
    assert!(!is_blacklisted(&items[0], &gw));
    assert!(is_blacklisted(&items[1], &gw));
    assert!(is_blacklisted(&items[2], &gw));
    let kept = filter_blacklisted(items, &gw);
    let names: Vec<&str> = kept.iter().map(|i| i.channel.as_str()).collect();
    assert_eq!(names, vec!["ok", "none", "other_port"]);
}

#[test]
fn host_port_forms() {
    assert_eq!(host_port("gw1"), Ok(("gw1", PORT_DEFAULT)));
    assert_eq!(host_port("gw1:5065"), Ok(("gw1", 5065)));
    assert_eq!(host_port("gw1:+80:extra"), Ok(("gw1", 80)));
    assert_eq!(host_port("gw1:65535"), Ok(("gw1", 65535)));
    assert_eq!(host_port("gw1:65536"), Err(Error::Config));
    assert_eq!(host_port("gw1:"), Err(Error::Config));
    assert_eq!(host_port("gw1:x1"), Err(Error::Config));
    assert_eq!(host_port(":5064"), Ok(("", 5064)));
}

#[test]
fn token_ranges_cover_the_ring() {
    let r = token_ranges(27);
    assert_eq!(r[0].0, i64::MIN);
    assert_eq!(r[r.len() - 1].1, i64::MAX);
    for k in 0..r.len() - 1 {
        assert_eq!(r[k + 1].0, r[k].1 + 1);
    }
    assert_eq!(r[0].1, i64::MIN + i64::MAX / 27);
    assert_eq!(r.len(), 54);
    assert_eq!(token_ranges(1).len(), 2);
}

#[test]
fn range_end_caps_at_top() {
    assert_eq!(next_range_end(0, 10), 10);
    assert_eq!(next_range_end(i64::MAX - 5, 10), i64::MAX);
}

#[test]
fn token_progress_scale() {
    assert_eq!(token_progress(i64::MIN), 0);
    assert_eq!(token_progress(i64::MAX), 100000);
    assert_eq!(token_progress(0), 9_223_372_036_854_775_808 / (u64::MAX / 100000));
}

#[test]
fn check_every_fires_once_per_interval() {
    let mut c = CheckEvery::new(1000, 5000);
    assert_eq!(c.is_elapsed_at(5500), None);
    assert_eq!(c.is_elapsed_at(6000), Some(1000));
    assert_eq!(c.is_elapsed_at(6999), None);
    assert_eq!(c.is_elapsed_at(8000), Some(2000));
    assert_eq!(c.is_elapsed_at(10), None);
}

#[test]
fn extra_inserts_conf_starts_empty() {
    let c = ExtraInsertsConf::new();
    assert!(c.copies.is_empty());
}

#[test]
fn error_kinds_describe_themselves() {
    assert_eq!(Error::NotFound.describe(), "not found");
    assert_eq!(Error::Config.describe(), "unsupported configuration");
}
