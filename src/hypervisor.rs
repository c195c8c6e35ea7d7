use vstd::prelude::*;
use crate::error::XenError;
use crate::text::{same_text, trim, trimmed};

verus! {

/// Where nothing tells which hypervisor runs the system, the agent assumes
/// that its user knows it is Xen.
pub fn check_is_in_xen_guest() -> (r: Result<(), XenError>)
    ensures
        r is Ok,
{
    Ok(())
}

pub open spec fn xen_name() -> Seq<char> {
    seq!['x', 'e', 'n']
}

/// The verdict on a hypervisor type already stripped of surrounding
/// whitespace: only `xen` is accepted.
pub fn hypervisor_type_verdict(hypervisor_type: &str) -> (r: Result<(), XenError>)
    ensures
        r == (if hypervisor_type@ == xen_name() {
            Ok::<(), XenError>(())
        } else {
            Err(XenError::HypervisorNotXen)
        }),
{
    let xen = "xen";
    proof {
        reveal_strlit("xen");
    }
    assert(xen@ =~= xen_name());
    if same_text(hypervisor_type, xen) {
        Ok(())
    } else {
        Err(XenError::HypervisorNotXen)
    }
}

/// The verdict on what the system reports as its hypervisor type, when it
/// could be read: the trimmed report must be `xen`.
pub fn check_hypervisor_type(report: Option<&str>) -> (r: Result<(), XenError>)
    ensures
        r == match report {
            None => Err(XenError::NotInGuest),
            Some(t) => if trimmed(t@) == xen_name() {
                Ok::<(), XenError>(())
            } else {
                Err(XenError::HypervisorNotXen)
            },
        },
{
    match report {
        None => Err(XenError::NotInGuest),
        Some(t) => hypervisor_type_verdict(trim(t)),
    }
}

} // verus!
