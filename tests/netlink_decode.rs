use xen_guest_agent::collector_net_netlink::{
    mac_address_string, AddressAttribute, AddressMessage, DecodeError, LinkAttribute, LinkMessage,
    NetworkSource, Phase, RouteMessage, SourceInput, AF_INET, AF_INET6,
};
use xen_guest_agent::datastructs::{IpAddress, NetEvent, NetEventOp, NetInterfaceCache};

fn link(index: u32, name: Option<&str>, mac: Option<Vec<u8>>) -> LinkMessage {
    let mut attributes = vec![LinkAttribute::Other];
    if let Some(n) = name {
        attributes.push(LinkAttribute::IfName(n.to_string()));
    }
    if let Some(m) = mac {
        attributes.push(LinkAttribute::Address(m));
    }
    LinkMessage { index, attributes }
}

fn address(family: u8, index: u32, bytes: Vec<u8>) -> AddressMessage {
    AddressMessage {
        family,
        index,
        attributes: vec![AddressAttribute::Other, AddressAttribute::Address(bytes)],
    }
}

fn describe(source: &NetworkSource, events: &[NetEvent]) -> Vec<String> {
    events
        .iter()
        .map(|e| {
            let name = source.iface_cache().get(e.iface).name.clone();
            let op = match &e.op {
                NetEventOp::AddIface => "AddIface".to_string(),
                NetEventOp::RmIface => "RmIface".to_string(),
                NetEventOp::AddMac(m) => format!("AddMac({m})"),
                NetEventOp::RmMac(m) => format!("RmMac({m})"),
                NetEventOp::AddIp(a) => format!("AddIp({a:?})"),
                NetEventOp::RmIp(a) => format!("RmIp({a:?})"),
            };
            format!("{name} {op}")
        })
        .collect()
}

#[test]
fn new_link_decodes_to_add_iface_then_add_mac() {
    let mut source = NetworkSource::new(NetInterfaceCache::new());
    let msg = RouteMessage::NewLink(link(7, Some("eth2"), Some(vec![0x02, 0, 0, 0, 0, 0x01])));
    let events = source.netevent_from_rtnetlink(&msg).unwrap();
    assert_eq!(events.len(), 2);
    assert!(matches!(events[0].op, NetEventOp::AddIface));
    match &events[1].op {
        NetEventOp::AddMac(m) => assert_eq!(m, "02:00:00:00:00:01"),
        other => panic!("unexpected {other:?}"),
    }
    assert_eq!(events[0].iface, events[1].iface);
    let h = source.iface_cache().lookup(7).unwrap();
    assert_eq!(h, events[0].iface);
    assert_eq!(source.iface_cache().get(h).name, "eth2");
    assert_eq!(source.iface_cache().get(h).index, 7);
}

#[test]
fn new_address_ipv4_decodes_to_add_ip() {
    let mut source = NetworkSource::new(NetInterfaceCache::new());
    source
        .netevent_from_rtnetlink(&RouteMessage::NewLink(link(7, Some("eth2"), None)))
        .unwrap();
    let events = source
        .netevent_from_rtnetlink(&RouteMessage::NewAddress(address(AF_INET, 7, vec![10, 0, 0, 5])))
        .unwrap();
    assert_eq!(events.len(), 1);
    assert_eq!(events[0].iface, source.iface_cache().lookup(7).unwrap());
    match events[0].op {
        NetEventOp::AddIp(a) => assert_eq!(a, IpAddress::V4([10, 0, 0, 5])),
        ref other => panic!("unexpected {other:?}"),
    }
}

#[test]
fn address_for_unknown_index_is_fatal() {
    let mut source = NetworkSource::new(NetInterfaceCache::new());
    let r = source.netevent_from_rtnetlink(&RouteMessage::NewAddress(address(AF_INET, 99, vec![10, 0, 0, 5])));
    assert_eq!(r.err(), Some(DecodeError::UnknownInterface(99)));
    assert_eq!(source.iface_cache().lookup(99), None);
    let r = source.netevent_from_rtnetlink(&RouteMessage::DelAddress(address(AF_INET6, 99, vec![0; 16])));
    assert_eq!(r.err(), Some(DecodeError::UnknownInterface(99)));
    assert_eq!(source.iface_cache().lookup(99), None);
}

#[test]
fn del_link_removes_mac_before_iface_and_evicts() {
    let mut source = NetworkSource::new(NetInterfaceCache::new());
    source
        .netevent_from_rtnetlink(&RouteMessage::NewLink(link(3, Some("xn0"), None)))
        .unwrap();
    let msg = RouteMessage::DelLink(link(3, Some("xn0"), Some(vec![0xaa, 0xbb, 0x0c, 0xd0, 0x01, 0xff])));
    let events = source.netevent_from_rtnetlink(&msg).unwrap();
    assert_eq!(describe(&source, &events), vec!["xn0 RmMac(aa:bb:0c:d0:01:ff)", "xn0 RmIface"]);
    assert_eq!(source.iface_cache().lookup(3), None);
    let r = source.netevent_from_rtnetlink(&RouteMessage::NewAddress(address(AF_INET, 3, vec![1, 2, 3, 4])));
    assert_eq!(r.err(), Some(DecodeError::UnknownInterface(3)));
}

#[test]
fn del_link_without_mac_gives_only_rm_iface() {
    let mut source = NetworkSource::new(NetInterfaceCache::new());
    let events = source
        .netevent_from_rtnetlink(&RouteMessage::DelLink(link(8, Some("eth8"), None)))
        .unwrap();
    assert_eq!(describe(&source, &events), vec!["eth8 RmIface"]);
}

#[test]
fn link_message_renames_known_interface() {
    let mut source = NetworkSource::new(NetInterfaceCache::new());
    let first = source
        .netevent_from_rtnetlink(&RouteMessage::NewLink(link(4, Some("eth0"), None)))
        .unwrap();
    let second = source
        .netevent_from_rtnetlink(&RouteMessage::NewLink(link(4, Some("lan"), None)))
        .unwrap();
    assert_eq!(first[0].iface, second[0].iface);
    assert_eq!(source.iface_cache().get(first[0].iface).name, "lan");
    let third = source
        .netevent_from_rtnetlink(&RouteMessage::NewLink(link(4, None, None)))
        .unwrap();
    assert_eq!(third.len(), 1);
    assert_eq!(source.iface_cache().get(first[0].iface).name, "lan");
}

#[test]
fn last_name_attribute_wins() {
    let mut source = NetworkSource::new(NetInterfaceCache::new());
    let msg = LinkMessage {
        index: 1,
        attributes: vec![
            LinkAttribute::IfName("a".to_string()),
            LinkAttribute::Address(vec![1]),
            LinkAttribute::IfName("b".to_string()),
            LinkAttribute::Address(vec![0xab, 0x02]),
        ],
    };
    let events = source.netevent_from_rtnetlink(&RouteMessage::NewLink(msg)).unwrap();
    assert_eq!(describe(&source, &events), vec!["b AddIface", "b AddMac(ab:02)"]);
}

#[test]
fn ipv6_address_and_removal() {
    let mut source = NetworkSource::new(NetInterfaceCache::new());
    source
        .netevent_from_rtnetlink(&RouteMessage::NewLink(link(2, Some("eth1"), None)))
        .unwrap();
    let mut bytes = vec![0u8; 16];
    bytes[0] = 0xfe;
    bytes[1] = 0x80;
    bytes[15] = 1;
    let events = source
        .netevent_from_rtnetlink(&RouteMessage::DelAddress(address(AF_INET6, 2, bytes.clone())))
        .unwrap();
    let mut expected = [0u8; 16];
    expected.copy_from_slice(&bytes);
    match events[0].op {
        NetEventOp::RmIp(a) => assert_eq!(a, IpAddress::V6(expected)),
        ref other => panic!("unexpected {other:?}"),
    }
}

#[test]
fn other_family_is_ignored() {
    let mut source = NetworkSource::new(NetInterfaceCache::new());
    let events = source
        .netevent_from_rtnetlink(&RouteMessage::NewAddress(address(17, 99, vec![1, 2])))
        .unwrap();
    assert!(events.is_empty());
}

#[test]
fn malformed_and_missing_addresses_are_errors() {
    let mut source = NetworkSource::new(NetInterfaceCache::new());
    source
        .netevent_from_rtnetlink(&RouteMessage::NewLink(link(2, Some("eth1"), None)))
        .unwrap();
    let r = source.netevent_from_rtnetlink(&RouteMessage::NewAddress(address(AF_INET, 2, vec![1, 2, 3])));
    assert_eq!(r.err(), Some(DecodeError::MalformedAddress { family: AF_INET, len: 3 }));
    let r = source.netevent_from_rtnetlink(&RouteMessage::NewAddress(address(AF_INET6, 2, vec![1, 2, 3, 4])));
    assert_eq!(r.err(), Some(DecodeError::MalformedAddress { family: AF_INET6, len: 4 }));
    let bare = AddressMessage { family: AF_INET, index: 2, attributes: vec![AddressAttribute::Other] };
    let r = source.netevent_from_rtnetlink(&RouteMessage::NewAddress(bare));
    assert_eq!(r.err(), Some(DecodeError::MissingAddress(2)));
}

#[test]
fn unhandled_message_kind_is_reported() {
    let mut source = NetworkSource::new(NetInterfaceCache::new());
    let r = source.netevent_from_rtnetlink(&RouteMessage::Other(24));
    assert_eq!(r.err(), Some(DecodeError::Unhandled(24)));
}

#[test]
fn mac_rendering() {
    assert_eq!(mac_address_string(&[0x02, 0, 0, 0, 0, 0x01]), "02:00:00:00:00:01");
    assert_eq!(mac_address_string(&[0xde, 0xad, 0xbe, 0xef]), "de:ad:be:ef");
    assert_eq!(mac_address_string(&[]), "");
    assert_eq!(mac_address_string(&[0x7]), "07");
}

#[test]
fn live_messages_wait_for_the_full_dump() {
    let mut source = NetworkSource::new(NetInterfaceCache::new());
    assert_eq!(source.phase(), Phase::DumpingLinks);
    // a live address for an interface that only the dump introduces
    let early = source
        .handle(SourceInput::LiveMessage(RouteMessage::NewAddress(address(AF_INET, 5, vec![192, 168, 0, 2]))))
        .unwrap();
    assert!(early.is_empty());
    let link_events = source
        .handle(SourceInput::DumpMessage(RouteMessage::NewLink(link(5, Some("eth0"), None))))
        .unwrap();
    assert_eq!(describe(&source, &link_events), vec!["eth0 AddIface"]);
    assert!(source.handle(SourceInput::DumpDone).unwrap().is_empty());
    assert_eq!(source.phase(), Phase::DumpingAddresses);
    let live_link = source
        .handle(SourceInput::LiveMessage(RouteMessage::NewLink(link(5, Some("eth5"), None))))
        .unwrap();
    assert!(live_link.is_empty());
    let dump_addr = source
        .handle(SourceInput::DumpMessage(RouteMessage::NewAddress(address(AF_INET, 5, vec![10, 0, 0, 1]))))
        .unwrap();
    assert_eq!(describe(&source, &dump_addr), vec!["eth0 AddIp(V4([10, 0, 0, 1]))"]);
    let released = source.handle(SourceInput::DumpDone).unwrap();
    assert_eq!(source.phase(), Phase::Live);
    assert_eq!(
        describe(&source, &released),
        vec!["eth5 AddIp(V4([192, 168, 0, 2]))", "eth5 AddIface"]
    );
    let live = source
        .handle(SourceInput::LiveMessage(RouteMessage::DelAddress(address(AF_INET, 5, vec![10, 0, 0, 1]))))
        .unwrap();
    assert_eq!(describe(&source, &live), vec!["eth5 RmIp(V4([10, 0, 0, 1]))"]);
}

#[test]
fn released_messages_stop_at_first_error() {
    let mut source = NetworkSource::new(NetInterfaceCache::new());
    source.handle(SourceInput::LiveMessage(RouteMessage::Other(3))).unwrap();
    source.handle(SourceInput::DumpDone).unwrap();
    let r = source.handle(SourceInput::DumpDone);
    assert_eq!(r.err(), Some(DecodeError::Unhandled(3)));
    assert_eq!(source.phase(), Phase::Live);
}
