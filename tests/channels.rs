use netfetch::addrmap::Addr;
use netfetch::channels::{ChannelState, ConnChannels};

fn addr() -> Addr {
    Addr { ip: 0x7f00_0001, port: 5064 }
}

#[test]
fn add_then_remove_leaves_no_channel() {
    let mut c = ConnChannels::new(addr());
    let name = "X:TEMP".to_string();
    assert!(c.channel_add(name.clone()));
    let info = c.channel_state(&name).expect("channel present after add");
    assert_eq!(info.channel_name, name);
    assert_eq!(info.address, addr());
    assert_eq!(info.state, ChannelState::Init);
    assert!(c.channel_remove(&name));
    assert!(c.channel_state(&name).is_none());
    assert_eq!(c.len(), 0);
}

#[test]
fn add_twice_and_remove_absent() {
    let mut c = ConnChannels::new(addr());
    assert!(c.channel_add("A".to_string()));
    assert!(!c.channel_add("A".to_string()));
    assert_eq!(c.len(), 1);
    assert!(!c.channel_remove(&"B".to_string()));
    assert_eq!(c.len(), 1);
}

#[test]
fn states_all_lists_every_channel() {
    let mut c = ConnChannels::new(addr());
    for n in ["a", "b", "c"].iter() {
        c.channel_add(n.to_string());
    }
    c.channel_remove(&"b".to_string());
    let all = c.channel_states_all();
    let names: Vec<&str> = all.iter().map(|i| i.channel_name.as_str()).collect();
    assert_eq!(names, vec!["a", "c"]);
}
