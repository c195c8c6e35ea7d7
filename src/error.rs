use vstd::prelude::*;

verus! {

/// Why the agent refuses to start.
#[derive(Clone, Copy, Debug, PartialEq, Eq, Structural)]
pub enum XenError {
    NotInGuest,
    HypervisorNotXen,
}

impl XenError {
    /// A sentence that says what went wrong.
    pub fn message(&self) -> (r: &'static str)
        ensures
            *self is NotInGuest ==> r@ == "Cannot identify hypervisor"@,
            *self is HypervisorNotXen ==> r@ == "Hypervisor is not Xen"@,
    {
        match self {
            XenError::NotInGuest => "Cannot identify hypervisor",
            XenError::HypervisorNotXen => "Hypervisor is not Xen",
        }
    }
}

} // verus!
