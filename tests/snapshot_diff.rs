use xen_guest_agent::collector_net_pnet::{InterfaceInfo, IpNetwork, NetworkSource, ObservedInterface};
use xen_guest_agent::datastructs::{IpAddress, NetEvent, NetEventOp, NetInterfaceCache};

fn net(a: u8, b: u8, c: u8, d: u8) -> IpNetwork {
    IpNetwork { ip: IpAddress::V4([a, b, c, d]), prefix: 24 }
}

fn observed(index: u32, name: &str, ips: Vec<IpNetwork>, mac: Option<[u8; 6]>) -> ObservedInterface {
    ObservedInterface { index, name: name.to_string(), ips, mac }
}

fn describe(source: &NetworkSource, events: &[NetEvent]) -> Vec<String> {
    events
        .iter()
        .map(|e| {
            let name = source.iface_cache().get(e.iface).name.clone();
            let op = match &e.op {
                NetEventOp::AddIface => "AddIface".to_string(),
                NetEventOp::RmIface => "RmIface".to_string(),
                NetEventOp::AddMac(m) => format!("AddMac({m})"),
                NetEventOp::RmMac(m) => format!("RmMac({m})"),
                NetEventOp::AddIp(IpAddress::V4(a)) => format!("AddIp({}.{}.{}.{})", a[0], a[1], a[2], a[3]),
                NetEventOp::RmIp(IpAddress::V4(a)) => format!("RmIp({}.{}.{}.{})", a[0], a[1], a[2], a[3]),
                other => format!("{other:?}"),
            };
            format!("{name} {op}")
        })
        .collect()
}

const MAC_AA: [u8; 6] = [0xaa, 0, 0, 0, 0, 0xaa];

#[test]
fn diff_reports_only_changed_addresses() {
    let mut source = NetworkSource::new(NetInterfaceCache::new());
    source
        .get_ifconfig_data(&vec![observed(1, "eth0", vec![net(10, 0, 0, 1)], Some(MAC_AA))])
        ;
    let events = source
        .get_ifconfig_data(&vec![observed(1, "eth0", vec![net(10, 0, 0, 2)], Some(MAC_AA))])
        ;
    assert_eq!(describe(&source, &events), vec!["eth0 RmIp(10.0.0.1)", "eth0 AddIp(10.0.0.2)"]);
}

#[test]
fn first_period_announces_everything() {
    let mut source = NetworkSource::new(NetInterfaceCache::new());
    let events = source
        .get_ifconfig_data(&vec![
            observed(1, "lo", vec![net(127, 0, 0, 1)], None),
            observed(2, "eth0", vec![net(10, 0, 0, 1)], Some(MAC_AA)),
        ])
        ;
    assert_eq!(
        describe(&source, &events),
        vec![
            "lo AddIface",
            "lo AddIp(127.0.0.1)",
            "eth0 AddIface",
            "eth0 AddIp(10.0.0.1)",
            "eth0 AddMac(aa:00:00:00:00:aa)",
        ]
    );
}

#[test]
fn unchanged_enumeration_gives_no_event() {
    let mut source = NetworkSource::new(NetInterfaceCache::new());
    let state = vec![observed(2, "eth0", vec![net(10, 0, 0, 1)], Some(MAC_AA))];
    source.get_ifconfig_data(&state);
    assert!(source.get_ifconfig_data(&state).is_empty());
}

#[test]
fn aliases_fold_onto_their_interface() {
    let mut source = NetworkSource::new(NetInterfaceCache::new());
    let events = source
        .get_ifconfig_data(&vec![
            observed(2, "eth0", vec![net(10, 0, 0, 1)], Some(MAC_AA)),
            observed(2, "eth0:1", vec![net(10, 0, 0, 9), net(10, 0, 0, 1)], Some(MAC_AA)),
        ])
        ;
    assert_eq!(
        describe(&source, &events),
        vec![
            "eth0 AddIface",
            "eth0 AddIp(10.0.0.1)",
            "eth0 AddMac(aa:00:00:00:00:aa)",
            "eth0 AddIp(10.0.0.9)",
        ]
    );
}

#[test]
fn alias_seen_first_gives_base_name() {
    let mut source = NetworkSource::new(NetInterfaceCache::new());
    let events = source
        .get_ifconfig_data(&vec![observed(6, "em1:0", vec![], None)])
        ;
    assert_eq!(describe(&source, &events), vec!["em1 AddIface"]);
}

#[test]
fn vanished_interface_is_removed_and_evicted() {
    let mut source = NetworkSource::new(NetInterfaceCache::new());
    source
        .get_ifconfig_data(&vec![
            observed(1, "eth0", vec![net(10, 0, 0, 1)], None),
            observed(2, "eth1", vec![], None),
        ])
        ;
    let events = source
        .get_ifconfig_data(&vec![observed(2, "eth1", vec![], None)])
        ;
    assert_eq!(describe(&source, &events), vec!["eth0 RmIface"]);
    assert_eq!(source.iface_cache().lookup(1), None);
    assert!(source.iface_cache().lookup(2).is_some());
}

#[test]
fn prefix_change_is_an_address_change() {
    let mut source = NetworkSource::new(NetInterfaceCache::new());
    source
        .get_ifconfig_data(&vec![observed(1, "eth0", vec![net(10, 0, 0, 1)], None)])
        ;
    let wider = IpNetwork { ip: IpAddress::V4([10, 0, 0, 1]), prefix: 16 };
    let events = source
        .get_ifconfig_data(&vec![observed(1, "eth0", vec![wider], None)])
        ;
    assert_eq!(describe(&source, &events), vec!["eth0 RmIp(10.0.0.1)", "eth0 AddIp(10.0.0.1)"]);
}

#[test]
fn mac_change_is_reported() {
    let mut source = NetworkSource::new(NetInterfaceCache::new());
    source.get_ifconfig_data(&vec![observed(1, "eth0", vec![], Some(MAC_AA))]);
    let events = source
        .get_ifconfig_data(&vec![observed(1, "eth0", vec![], Some([0, 1, 2, 3, 4, 5]))])
        ;
    assert_eq!(
        describe(&source, &events),
        vec!["eth0 RmMac(aa:00:00:00:00:aa)", "eth0 AddMac(00:01:02:03:04:05)"]
    );
}

#[test]
fn interface_info_starts_empty() {
    let info = InterfaceInfo::new("eth3");
    assert_eq!(info.name, "eth3");
    assert!(info.addresses.is_empty());
}

#[test]
fn source_over_a_filled_cache_reuses_its_records() {
    let mut cache = NetInterfaceCache::new();
    let h = cache.lookup_or_create(1, Some("wan".to_string()));
    let mut source = NetworkSource::new(cache);
    let events = source.get_ifconfig_data(&vec![observed(1, "eth0", vec![], None)]);
    assert_eq!(events.len(), 1);
    assert_eq!(events[0].iface, h);
    assert_eq!(describe(&source, &events), vec!["wan AddIface"]);
}
