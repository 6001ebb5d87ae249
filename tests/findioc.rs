use netfetch::addrmap::Addr;
use netfetch::findioc::FindIoc;

const MS: u64 = 1_000_000;

fn gw(n: u32) -> Addr {
    Addr { ip: 0x0a00_0000 + n, port: 5064 }
}

#[test]
fn silent_gateway_gives_not_found_after_retry() {
    let mut f = FindIoc::new(vec![gw(1)], vec![], 200 * MS, 20, 1);
    f.push("CH:A".to_string());
    let q = f.next_request(0).expect("one query goes out");
    assert_eq!(q.channel, "CH:A");
    assert_eq!(q.gateway, gw(1));
    assert!(f.next_request(0).is_none());
    let (again, lost) = f.expire(199 * MS);
    assert!(again.is_empty() && lost.is_empty());
    let (again, lost) = f.expire(200 * MS);
    assert_eq!(again.len(), 1);
    assert_eq!(again[0].id, q.id);
    assert!(lost.is_empty());
    assert!(!f.is_done());
    let (again, lost) = f.expire(399 * MS);
    assert!(again.is_empty() && lost.is_empty());
    let (again, lost) = f.expire(400 * MS);
    assert!(again.is_empty());
    assert_eq!(lost.len(), 1);
    assert_eq!(lost[0].channel, "CH:A");
    assert!(lost[0].response_addr.is_none());
    assert!(lost[0].addr.is_none());
    assert!(f.is_done());
}

#[test]
fn in_flight_is_bounded() {
    let mut f = FindIoc::new(vec![gw(1), gw(2)], vec![], 1000 * MS, 2, 1);
    for n in ["a", "b", "c"].iter() {
        f.push(n.to_string());
    }
    let q1 = f.next_request(0).unwrap();
    let q2 = f.next_request(0).unwrap();
    assert!(f.next_request(0).is_none());
    assert_eq!(q1.gateway, gw(1));
    assert_eq!(q2.gateway, gw(2));
    assert_eq!(f.quick_state(), (1, 2));
    let r = f.on_reply(q1.id, Some(gw(1)), Some(Addr { ip: 0x0a00_0101, port: 5064 }));
    assert_eq!(r.map(|x| x.channel), Some("a".to_string()));
    let q3 = f.next_request(5).unwrap();
    assert_eq!(q3.channel, "c");
    assert_eq!(q3.gateway, gw(1));
}

#[test]
fn replies_naming_a_blacklisted_gateway_are_skipped() {
    let mut f = FindIoc::new(vec![gw(1)], vec![gw(9)], 1000 * MS, 20, 1);
    f.push("x".to_string());
    f.push("y".to_string());
    let qx = f.next_request(0).unwrap();
    let qy = f.next_request(0).unwrap();
    assert!(f.on_reply(qx.id, Some(gw(9)), Some(gw(3))).is_none());
    assert!(f.on_reply(qy.id, Some(gw(1)), Some(gw(9))).is_none());
    assert!(f.is_done());
}

#[test]
fn reply_to_unknown_query_changes_nothing() {
    let mut f = FindIoc::new(vec![gw(1)], vec![], 1000 * MS, 20, 1);
    f.push("x".to_string());
    let q = f.next_request(0).unwrap();
    assert!(f.on_reply(q.id.wrapping_add(7), Some(gw(1)), Some(gw(2))).is_none());
    assert_eq!(f.quick_state(), (0, 1));
}

#[test]
fn no_gateway_sends_nothing() {
    let mut f = FindIoc::new(vec![], vec![], 1000 * MS, 20, 1);
    f.push("x".to_string());
    assert!(f.next_request(0).is_none());
    assert!(!f.is_done());
}
