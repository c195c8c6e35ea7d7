use xen_guest_agent::datastructs::{IpAddress, NetInterface};
use xen_guest_agent::xenstore_schema_std::{get_ip_slot, release_ip_slot, Schema, SlotError, NUM_IFACE_IPS};

const A: IpAddress = IpAddress::V4([10, 0, 0, 1]);
const B: IpAddress = IpAddress::V4([10, 0, 0, 2]);
const C: IpAddress = IpAddress::V4([10, 0, 0, 3]);

#[test]
fn slot_reuse_and_exhaustion() {
    let mut table: Vec<Option<IpAddress>> = vec![None, None];
    let a = get_ip_slot(&A, &mut table).unwrap();
    let b = get_ip_slot(&B, &mut table).unwrap();
    assert_ne!(a, b);
    assert_eq!(get_ip_slot(&A, &mut table), Ok(a));
    assert_eq!(get_ip_slot(&C, &mut table), Err(SlotError::NoFreeSlot));
    assert_eq!(release_ip_slot(&A, &mut table), Some(a));
    assert_eq!(get_ip_slot(&C, &mut table), Ok(a));
    assert_eq!(table, vec![Some(C), Some(B)]);
}

#[test]
fn first_free_slot_is_taken() {
    let mut table: Vec<Option<IpAddress>> = vec![Some(A), None, Some(B), None];
    assert_eq!(get_ip_slot(&C, &mut table), Ok(1));
    assert_eq!(get_ip_slot(&B, &mut table), Ok(2));
    assert_eq!(release_ip_slot(&IpAddress::V4([1, 1, 1, 1]), &mut table), None);
    assert_eq!(table, vec![Some(A), Some(C), Some(B), None]);
}

#[test]
fn empty_table_refuses() {
    let mut table: Vec<Option<IpAddress>> = vec![];
    assert_eq!(get_ip_slot(&A, &mut table), Err(SlotError::NoFreeSlot));
}

#[test]
fn schema_keys_by_family_and_interface() {
    let mut schema = Schema::new();
    let eth0 = NetInterface::new(2, Some("eth0".to_string()));
    let eth1 = NetInterface::new(3, Some("eth1".to_string()));
    let v6 = IpAddress::V6([0xfe, 0x80, 0, 0, 0, 0, 0, 0, 0, 0, 0, 0, 0, 0, 0, 1]);
    assert_eq!(schema.munged_address(&A, &eth0).unwrap(), "ipv4/0");
    assert_eq!(schema.munged_address(&B, &eth0).unwrap(), "ipv4/1");
    assert_eq!(schema.munged_address(&v6, &eth0).unwrap(), "ipv6/0");
    assert_eq!(schema.munged_address(&B, &eth1).unwrap(), "ipv4/0");
    assert_eq!(schema.munged_address(&A, &eth0).unwrap(), "ipv4/0");
    assert_eq!(schema.release_address(&A, &eth0), Some("ipv4/0".to_string()));
    assert_eq!(schema.release_address(&A, &eth0), None);
    assert_eq!(schema.munged_address(&C, &eth0).unwrap(), "ipv4/0");
    assert_eq!(schema.munged_address(&B, &eth0).unwrap(), "ipv4/1");
}

#[test]
fn schema_table_has_ten_slots() {
    let mut schema = Schema::new();
    let eth0 = NetInterface::new(2, Some("eth0".to_string()));
    for i in 0..NUM_IFACE_IPS {
        let ip = IpAddress::V4([192, 168, 1, i as u8]);
        assert_eq!(schema.munged_address(&ip, &eth0).unwrap(), format!("ipv4/{i}"));
    }
    let extra = IpAddress::V4([192, 168, 1, 200]);
    assert_eq!(schema.munged_address(&extra, &eth0), Err(SlotError::NoFreeSlot));
    assert_eq!(schema.munged_address(&IpAddress::V6([1; 16]), &eth0).unwrap(), "ipv6/0");
}
