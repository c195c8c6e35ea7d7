use xen_guest_agent::collector_net_netlink::{LinkAttribute, LinkMessage, NetworkSource, RouteMessage};
use xen_guest_agent::datastructs::{NetEventOp, NetInterface, NetInterfaceCache, ToolstackNetInterface};

fn new_link(index: u32, name: &str) -> RouteMessage {
    RouteMessage::NewLink(LinkMessage {
        index,
        attributes: vec![LinkAttribute::IfName(name.to_string())],
    })
}

#[test]
fn lookup_or_create_twice_gives_same_identity() {
    let mut cache = NetInterfaceCache::new();
    let h1 = cache.lookup_or_create(3, Some("xn3".to_string()));
    let first = cache.get(h1).clone();
    let h2 = cache.lookup_or_create(3, Some("other".to_string()));
    assert_eq!(h1, h2);
    let second = cache.get(h2);
    assert_eq!(first.name, second.name);
    assert_eq!(second.name, "xn3");
    assert_eq!(first.toolstack_iface, second.toolstack_iface);
    assert_eq!(second.toolstack_iface, ToolstackNetInterface::Vif(3));
}

#[test]
fn lookup_of_unknown_index_is_none() {
    let mut cache = NetInterfaceCache::new();
    assert_eq!(cache.lookup(9), None);
    let h = cache.lookup_or_create(9, None);
    assert_eq!(cache.lookup(9), Some(h));
    assert_eq!(cache.get(h).name, "");
}

#[test]
fn new_interface_without_name_has_empty_name() {
    let i = NetInterface::new(4, None);
    assert_eq!(i.index, 4);
    assert_eq!(i.name, "");
    assert!(i.toolstack_iface.is_none());
    let j = NetInterface::new(5, Some("xn7".to_string()));
    assert_eq!(j.toolstack_iface, ToolstackNetInterface::Vif(7));
    assert!(!j.toolstack_iface.is_none());
}

#[test]
fn captured_event_sees_later_rename() {
    let mut source = NetworkSource::new(NetInterfaceCache::new());
    let events = source.netevent_from_rtnetlink(&new_link(5, "eth0")).unwrap();
    let captured = events[0].clone();
    assert!(matches!(captured.op, NetEventOp::AddIface));
    assert_eq!(source.iface_cache().get(captured.iface).name, "eth0");
    source.netevent_from_rtnetlink(&new_link(5, "eth1")).unwrap();
    assert_eq!(source.iface_cache().get(captured.iface).name, "eth1");
}

#[test]
fn rename_and_remove_keep_handles_valid() {
    let mut cache = NetInterfaceCache::new();
    let h = cache.lookup_or_create(2, Some("eth0".to_string()));
    cache.rename(h, "wan".to_string());
    assert_eq!(cache.get(h).name, "wan");
    cache.remove(2);
    assert_eq!(cache.lookup(2), None);
    assert_eq!(cache.get(h).name, "wan");
    assert_eq!(cache.get(h).index, 2);
    let h2 = cache.lookup_or_create(2, Some("eth9".to_string()));
    assert_ne!(h, h2);
    assert_eq!(cache.get(h2).name, "eth9");
    assert_eq!(cache.get(h).name, "wan");
}
