use vstd::prelude::*;
use std::collections::HashMap;
use crate::vif_detect::{get_toolstack_interface, toolstack_of_name};

verus! {

/// How the toolstack knows an interface: not at all, or as a VIF.
#[derive(Clone, Copy, Debug, PartialEq, Eq, Structural)]
pub enum ToolstackNetInterface {
    Absent,
    Vif(u32),
}

impl ToolstackNetInterface {
    /// Whether the toolstack does not know the interface.
    pub fn is_none(&self) -> (r: bool)
        ensures
            r == (*self is Absent),
    {
        if let ToolstackNetInterface::Absent = self {
            return true;
        }
        false
    }
}

/// An IP address, as the raw bytes of its family, most significant first.
#[derive(Clone, Copy, Debug)]
pub enum IpAddress {
    V4([u8; 4]),
    V6([u8; 16]),
}

/// Byte-wise comparison of two slices.
pub fn bytes_equal(a: &[u8], b: &[u8]) -> (r: bool)
    ensures
        r == (a@ == b@),
{
    if a.len() != b.len() {
        return false;
    }
    let mut i: usize = 0;
    while i < a.len()
        invariant
            a@.len() == b@.len(),
            i <= a@.len(),
            forall|j: int| 0 <= j < i ==> a@[j] == b@[j],
        decreases a@.len() - i,
    {
        if a[i] != b[i] {
            return false;
        }
        i = i + 1;
    }
    assert(a@ =~= b@);
    true
}

/// Two arrays with the same elements are the same array.
pub proof fn lemma_array_eq<const N: usize>(a: [u8; N], b: [u8; N])
    requires
        a@ == b@,
    ensures
        a == b,
{
    assert forall|i: int| 0 <= i < N implies a[i] == b[i] by {
        assert(a@[i] == b@[i]);
    }
    assert(a =~= b);
}

impl PartialEq for IpAddress {
    fn eq(&self, other: &IpAddress) -> (r: bool)
        ensures
            r == (*self == *other),
    {
        match (self, other) {
            (IpAddress::V4(a), IpAddress::V4(b)) => {
                let r = bytes_equal(a.as_slice(), b.as_slice());
                proof {
                    if r {
                        lemma_array_eq(*a, *b);
                    }
                }
                r
            },
            (IpAddress::V6(a), IpAddress::V6(b)) => {
                let r = bytes_equal(a.as_slice(), b.as_slice());
                proof {
                    if r {
                        lemma_array_eq(*a, *b);
                    }
                }
                r
            },
            _ => false,
        }
    }
}

impl vstd::std_specs::cmp::PartialEqSpecImpl for IpAddress {
    open spec fn obeys_eq_spec() -> bool {
        true
    }

    open spec fn eq_spec(&self, other: &IpAddress) -> bool {
        *self == *other
    }
}

/// What the kernel reports of the running kernel.
pub struct KernelInfo {
    pub release: String,
}

/// Identity of one network interface.
#[derive(Clone, Debug)]
pub struct NetInterface {
    pub index: u32,
    pub name: String,
    pub toolstack_iface: ToolstackNetInterface,
}

/// Mathematical model of a [`NetInterface`].
pub struct NetInterfaceView {
    pub index: u32,
    pub name: Seq<char>,
    pub toolstack_iface: ToolstackNetInterface,
}

impl View for NetInterface {
    type V = NetInterfaceView;

    open spec fn view(&self) -> NetInterfaceView {
        NetInterfaceView { index: self.index, name: self.name@, toolstack_iface: self.toolstack_iface }
    }
}

pub open spec fn opt_string_view(name: Option<String>) -> Option<Seq<char>> {
    match name {
        Some(s) => Some(s@),
        None => None,
    }
}

/// The interface created for `index` from a candidate name: a missing name
/// gives an empty one, and the association is derived from the name.
pub open spec fn new_interface(index: u32, name: Option<Seq<char>>) -> NetInterfaceView {
    let n = match name {
        Some(s) => s,
        None => Seq::<char>::empty(),
    };
    NetInterfaceView { index, name: n, toolstack_iface: toolstack_of_name(n) }
}

impl NetInterface {
    pub fn new(index: u32, name: Option<String>) -> (r: NetInterface)
        ensures
            r@ == new_interface(index, opt_string_view(name)),
    {
        let name = match name {
            Some(string) => string,
            None => String::new(),
        };
        let toolstack_iface = get_toolstack_interface(name.as_str());
        NetInterface { index, name, toolstack_iface }
    }
}

/// Handle on an interface record of a [`NetInterfaceCache`]. It stays
/// valid, and shows the record's current state, after the interface is
/// renamed or evicted.
pub type IfaceHandle = usize;

/// The change that a [`NetEvent`] reports.
#[derive(Clone, Debug)]
pub enum NetEventOp {
    AddIface,
    RmIface,
    AddMac(String),
    RmMac(String),
    AddIp(IpAddress),
    RmIp(IpAddress),
}

/// Mathematical model of a [`NetEventOp`].
pub enum NetEventOpView {
    AddIface,
    RmIface,
    AddMac(Seq<char>),
    RmMac(Seq<char>),
    AddIp(IpAddress),
    RmIp(IpAddress),
}

impl View for NetEventOp {
    type V = NetEventOpView;

    open spec fn view(&self) -> NetEventOpView {
        match self {
            NetEventOp::AddIface => NetEventOpView::AddIface,
            NetEventOp::RmIface => NetEventOpView::RmIface,
            NetEventOp::AddMac(m) => NetEventOpView::AddMac(m@),
            NetEventOp::RmMac(m) => NetEventOpView::RmMac(m@),
            NetEventOp::AddIp(a) => NetEventOpView::AddIp(*a),
            NetEventOp::RmIp(a) => NetEventOpView::RmIp(*a),
        }
    }
}

/// One change of one interface, which the interface's record in the cache
/// names by its handle.
#[derive(Clone, Debug)]
pub struct NetEvent {
    pub iface: IfaceHandle,
    pub op: NetEventOp,
}

/// Mathematical model of a [`NetEvent`].
pub struct NetEventView {
    pub iface: IfaceHandle,
    pub op: NetEventOpView,
}

impl View for NetEvent {
    type V = NetEventView;

    open spec fn view(&self) -> NetEventView {
        NetEventView { iface: self.iface, op: self.op@ }
    }
}

pub open spec fn events_view(events: Seq<NetEvent>) -> Seq<NetEventView> {
    events.map_values(|e: NetEvent| e@)
}

/// Mathematical model of a [`NetInterfaceCache`]: every record ever made,
/// by handle, and the handle of each interface index currently known.
pub struct CacheView {
    pub records: Seq<NetInterfaceView>,
    pub live: Map<u32, IfaceHandle>,
}

impl CacheView {
    pub open spec fn well_formed(self) -> bool {
        forall|k: u32| #[trigger] self.live.contains_key(k) ==> {
            &&& self.live[k] < self.records.len()
            &&& self.records[self.live[k] as int].index == k
        }
    }

    pub open spec fn valid_handle(self, h: IfaceHandle) -> bool {
        h < self.records.len()
    }

    /// The cache and the handle that looking up `index`, or creating its
    /// record from `name` when it is unknown, give.
    pub open spec fn lookup_or_create(self, index: u32, name: Option<Seq<char>>) -> (CacheView, IfaceHandle) {
        if self.live.contains_key(index) {
            (self, self.live[index])
        } else {
            let h = self.records.len() as IfaceHandle;
            (
                CacheView {
                    records: self.records.push(new_interface(index, name)),
                    live: self.live.insert(index, h),
                },
                h,
            )
        }
    }

    /// The cache once record `h` is named `name`.
    pub open spec fn rename(self, h: IfaceHandle, name: Seq<char>) -> CacheView {
        CacheView {
            records: self.records.update(h as int, NetInterfaceView { name, ..self.records[h as int] }),
            live: self.live,
        }
    }

    /// The cache once `index` is evicted; its record stays behind its handle.
    pub open spec fn remove(self, index: u32) -> CacheView {
        CacheView { records: self.records, live: self.live.remove(index) }
    }
}

/// The interfaces currently known, by kernel index. Records are kept in an
/// arena: events hold handles into it, so that they see later renames and
/// outlive the eviction of their interface.
pub struct NetInterfaceCache {
    records: Vec<NetInterface>,
    live: HashMap<u32, IfaceHandle>,
}

impl View for NetInterfaceCache {
    type V = CacheView;

    closed spec fn view(&self) -> CacheView {
        CacheView { records: self.records@.map_values(|r: NetInterface| r@), live: self.live@ }
    }
}

impl NetInterfaceCache {
    pub open spec fn well_formed(&self) -> bool {
        self@.well_formed()
    }

    pub fn new() -> (r: NetInterfaceCache)
        ensures
            r.well_formed(),
            r@.records.len() == 0,
            r@.live == Map::<u32, IfaceHandle>::empty(),
    {
        let r = NetInterfaceCache { records: Vec::new(), live: HashMap::new() };
        assert(r@.records =~= Seq::<NetInterfaceView>::empty());
        r
    }

    /// The handle of the record of `index`, if the interface is known.
    pub fn lookup(&self, index: u32) -> (r: Option<IfaceHandle>)
        requires
            self.well_formed(),
        ensures
            r == (if self@.live.contains_key(index) { Some(self@.live[index]) } else { None }),
    {
        broadcast use vstd::std_specs::hash::group_hash_axioms;
        match self.live.get(&index) {
            Some(h) => Some(*h),
            None => None,
        }
    }

    /// The handle of the record of a known interface.
    pub fn handle(&self, index: u32) -> (r: IfaceHandle)
        requires
            self.well_formed(),
            self@.live.contains_key(index),
        ensures
            r == self@.live[index],
    {
        broadcast use vstd::std_specs::hash::group_hash_axioms;
        *self.live.get(&index).unwrap()
    }

    /// The handle of the record of `index`, created from `name` when the
    /// interface is not known yet.
    pub fn lookup_or_create(&mut self, index: u32, name: Option<String>) -> (r: IfaceHandle)
        requires
            old(self).well_formed(),
        ensures
            final(self).well_formed(),
            (final(self)@, r) == old(self)@.lookup_or_create(index, opt_string_view(name)),
    {
        broadcast use vstd::std_specs::hash::group_hash_axioms;
        match self.live.get(&index) {
            Some(h) => *h,
            None => {
                let h = self.records.len();
                self.records.push(NetInterface::new(index, name));
                self.live.insert(index, h);
                assert(self@.records =~= old(self)@.records.push(new_interface(index, opt_string_view(name))));
                assert(self@.live =~= old(self)@.live.insert(index, h));
                h
            },
        }
    }

    /// The record behind a handle.
    pub fn get(&self, h: IfaceHandle) -> (r: &NetInterface)
        requires
            self@.valid_handle(h),
        ensures
            r@ == self@.records[h as int],
    {
        &self.records[h]
    }

    /// Renames the interface of record `h`; every holder of the handle sees
    /// the new name.
    pub fn rename(&mut self, h: IfaceHandle, name: String)
        requires
            old(self).well_formed(),
            old(self)@.valid_handle(h),
        ensures
            final(self).well_formed(),
            final(self)@ == old(self)@.rename(h, name@),
    {
        let index = self.records[h].index;
        let toolstack_iface = self.records[h].toolstack_iface;
        self.records.set(h, NetInterface { index, name, toolstack_iface });
        assert(self@.records =~= old(self)@.rename(h, self.records@[h as int].name@).records);
    }

    /// Evicts `index`: it is no longer found, while its record stays valid
    /// behind its handle.
    pub fn remove(&mut self, index: u32)
        requires
            old(self).well_formed(),
        ensures
            final(self).well_formed(),
            final(self)@ == old(self)@.remove(index),
    {
        broadcast use vstd::std_specs::hash::group_hash_axioms;
        self.live.remove(&index);
        assert(self@.live =~= old(self)@.live.remove(index));
    }
}

/// Looking up an index twice gives the same record: the second lookup, with
/// whatever candidate name, returns the handle of the first and changes
/// nothing.
pub proof fn lemma_lookup_or_create_idempotent(
    m: CacheView,
    index: u32,
    name1: Option<Seq<char>>,
    name2: Option<Seq<char>>,
)
    requires
        m.well_formed(),
    ensures
        ({
            let (m1, h1) = m.lookup_or_create(index, name1);
            let (m2, h2) = m1.lookup_or_create(index, name2);
            &&& h2 == h1
            &&& m2 == m1
            &&& m2.records[h2 as int] == m1.records[h1 as int]
        }),
{
}

/// A rename is seen through every handle on the record, and an eviction
/// leaves every handle valid with its record as it was.
pub proof fn lemma_handles_follow_record(m: CacheView, h: IfaceHandle, name: Seq<char>, index: u32)
    requires
        m.well_formed(),
        m.valid_handle(h),
    ensures
        m.rename(h, name).valid_handle(h),
        m.rename(h, name).records[h as int].name == name,
        m.rename(h, name).records[h as int].index == m.records[h as int].index,
        m.remove(index).valid_handle(h),
        m.remove(index).records[h as int] == m.records[h as int],
        !m.remove(index).live.contains_key(index),
{
}

} // verus!
