//! Network-interface observation engine of a Xen guest agent.
//!
//! The library decodes rtnetlink change notifications, diffs periodic
//! interface enumerations, keeps a cache of known interfaces shared by
//! every produced event, and maps IP addresses onto the small fixed slot
//! tables of the xenstore schema.
pub mod datastructs;
pub mod error;
pub mod hypervisor;
pub mod text;
pub mod vif_detect;
pub mod collector_memory;
pub mod collector_net_netlink;
pub mod publisher;
pub mod xenstore_schema_std;
pub mod collector_net_pnet;
