use xen_guest_agent::datastructs::ToolstackNetInterface;
use xen_guest_agent::error::XenError;
use xen_guest_agent::hypervisor::{check_hypervisor_type, check_is_in_xen_guest, hypervisor_type_verdict};
use xen_guest_agent::publisher::{schema_from_name, SchemaKind};
use xen_guest_agent::text::trim;
use xen_guest_agent::vif_detect::{
    get_toolstack_interface, parse_u32, toolstack_from_sysfs, toolstack_from_sysfs_entries,
};

#[test]
fn vif_names() {
    assert_eq!(get_toolstack_interface("xn0"), ToolstackNetInterface::Vif(0));
    assert_eq!(get_toolstack_interface("xn12"), ToolstackNetInterface::Vif(12));
    assert_eq!(get_toolstack_interface("xn"), ToolstackNetInterface::Absent);
    assert_eq!(get_toolstack_interface("xnx"), ToolstackNetInterface::Absent);
    assert_eq!(get_toolstack_interface("eth0"), ToolstackNetInterface::Absent);
    assert_eq!(get_toolstack_interface("x"), ToolstackNetInterface::Absent);
    assert_eq!(get_toolstack_interface(""), ToolstackNetInterface::Absent);
    assert_eq!(get_toolstack_interface("xn4294967296"), ToolstackNetInterface::Absent);
    assert_eq!(get_toolstack_interface("xn4294967295"), ToolstackNetInterface::Vif(4294967295));
}

#[test]
fn decimal_parsing_matches_std() {
    for s in ["0", "7", "+7", "+", "-1", "", "12a", "4294967295", "4294967296", "007", "99999999999", "é1"] {
        assert_eq!(parse_u32(s), s.parse::<u32>().ok(), "input {s:?}");
    }
}

#[test]
fn sysfs_entries() {
    assert_eq!(
        toolstack_from_sysfs(Some("vif\n"), Some("device/vif/3\n")),
        ToolstackNetInterface::Vif(3)
    );
    assert_eq!(toolstack_from_sysfs(Some("pci\n"), Some("device/vif/3\n")), ToolstackNetInterface::Absent);
    assert_eq!(toolstack_from_sysfs(Some("vif\n"), Some("device/vbd/3\n")), ToolstackNetInterface::Absent);
    assert_eq!(toolstack_from_sysfs(Some("vif"), None), ToolstackNetInterface::Absent);
    assert_eq!(toolstack_from_sysfs(None, Some("device/vif/3")), ToolstackNetInterface::Absent);
    assert_eq!(toolstack_from_sysfs(Some("vif"), Some("device/vif/x")), ToolstackNetInterface::Absent);
    assert_eq!(toolstack_from_sysfs_entries(Some("vif"), Some("device/vif/42")), ToolstackNetInterface::Vif(42));
    assert_eq!(toolstack_from_sysfs_entries(Some("vif "), Some("device/vif/42")), ToolstackNetInterface::Absent);
}

#[test]
fn hypervisor_checks() {
    assert_eq!(check_is_in_xen_guest(), Ok(()));
    assert_eq!(check_hypervisor_type(Some("xen\n")), Ok(()));
    assert_eq!(check_hypervisor_type(Some("kvm\n")), Err(XenError::HypervisorNotXen));
    assert_eq!(check_hypervisor_type(None), Err(XenError::NotInGuest));
    assert_eq!(hypervisor_type_verdict("xen"), Ok(()));
    assert_eq!(hypervisor_type_verdict("xen\n"), Err(XenError::HypervisorNotXen));
    assert_eq!(hypervisor_type_verdict("xe"), Err(XenError::HypervisorNotXen));
}

#[test]
fn trimming() {
    assert_eq!(trim("  xen \n"), "xen");
    assert_eq!(trim("\t\n"), "");
}

#[test]
fn error_messages() {
    assert_eq!(XenError::NotInGuest.message(), "Cannot identify hypervisor");
    assert_eq!(XenError::HypervisorNotXen.message(), "Hypervisor is not Xen");
}

#[test]
fn schema_names() {
    assert_eq!(schema_from_name("std"), Some(SchemaKind::Std));
    assert_eq!(schema_from_name("rfc"), Some(SchemaKind::Rfc));
    assert_eq!(schema_from_name("rfc2"), None);
    assert_eq!(schema_from_name(""), None);
}
