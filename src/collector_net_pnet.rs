use vstd::prelude::*;
use crate::datastructs::{
    CacheView, IfaceHandle, IpAddress, NetEvent, NetEventOp, NetEventOpView, NetEventView,
    NetInterfaceCache, bytes_equal, events_view, lemma_array_eq,
};
use crate::collector_net_netlink::{event, mac_address_string, mac_string};

verus! {

/// An address with the length of its network prefix.
#[derive(Clone, Copy, Debug)]
pub struct IpNetwork {
    pub ip: IpAddress,
    pub prefix: u8,
}

impl PartialEq for IpNetwork {
    fn eq(&self, other: &IpNetwork) -> (r: bool)
        ensures
            r == (*self == *other),
    {
        self.ip == other.ip && self.prefix == other.prefix
    }
}

impl vstd::std_specs::cmp::PartialEqSpecImpl for IpNetwork {
    open spec fn obeys_eq_spec() -> bool {
        true
    }

    open spec fn eq_spec(&self, other: &IpNetwork) -> bool {
        *self == *other
    }
}

/// An address assigned to an interface.
#[derive(Clone, Copy, Debug)]
pub enum Address {
    IP(IpNetwork),
    MAC([u8; 6]),
}

impl PartialEq for Address {
    fn eq(&self, other: &Address) -> (r: bool)
        ensures
            r == (*self == *other),
    {
        match (self, other) {
            (Address::IP(a), Address::IP(b)) => *a == *b,
            (Address::MAC(a), Address::MAC(b)) => {
                let r = bytes_equal(a.as_slice(), b.as_slice());
                proof {
                    if r {
                        lemma_array_eq(*a, *b);
                    }
                }
                r
            },
            _ => false,
        }
    }
}

impl vstd::std_specs::cmp::PartialEqSpecImpl for Address {
    open spec fn obeys_eq_spec() -> bool {
        true
    }

    open spec fn eq_spec(&self, other: &Address) -> bool {
        *self == *other
    }
}

/// One interface as an enumeration of the system reports it. An interface
/// with aliases is reported once per alias, under one index.
pub struct ObservedInterface {
    pub index: u32,
    pub name: String,
    pub ips: Vec<IpNetwork>,
    pub mac: Option<[u8; 6]>,
}

/// What one enumeration shows of an interface.
pub struct InterfaceInfo {
    pub name: String,
    pub addresses: Vec<Address>,
}

impl InterfaceInfo {
    pub fn new(name: &str) -> (r: InterfaceInfo)
        ensures
            r.name@ == name@,
            r.addresses@.len() == 0,
    {
        InterfaceInfo { name: String::from_str(name), addresses: Vec::new() }
    }
}

/// Mathematical model of one interface of a snapshot.
pub struct SnapEntry {
    pub index: u32,
    pub name: Seq<char>,
    pub addresses: Seq<Address>,
}

pub open spec fn entry_view(e: (u32, InterfaceInfo)) -> SnapEntry {
    SnapEntry { index: e.0, name: e.1.name@, addresses: e.1.addresses@ }
}

pub open spec fn snapshot_view(s: Seq<(u32, InterfaceInfo)>) -> Seq<SnapEntry> {
    s.map_values(|e: (u32, InterfaceInfo)| entry_view(e))
}

/// Position of the first colon at or after `i`, or the length.
pub open spec fn colon_from(s: Seq<char>, i: int) -> int
    decreases s.len() - i,
{
    if i < 0 || i >= s.len() {
        s.len() as int
    } else if s[i] == ':' {
        i
    } else {
        colon_from(s, i + 1)
    }
}

/// An interface name without its alias suffix: what precedes the first
/// colon.
pub open spec fn base_name(s: Seq<char>) -> Seq<char> {
    s.subrange(0, colon_from(s, 0))
}

proof fn lemma_colon_from_bounds(s: Seq<char>, i: int)
    requires
        0 <= i <= s.len(),
    ensures
        i <= colon_from(s, i) <= s.len(),
    decreases s.len() - i,
{
    if i < s.len() {
        lemma_colon_from_bounds(s, i + 1);
    }
}

fn strip_alias(name: &str) -> (r: String)
    ensures
        r@ == base_name(name@),
{
    let n = name.unicode_len();
    let mut k: usize = 0;
    while k < n && name.get_char(k) != ':'
        invariant
            n == name@.len(),
            k <= n,
            colon_from(name@, 0) == colon_from(name@, k as int),
        decreases n - k,
    {
        k = k + 1;
    }
    proof {
        lemma_colon_from_bounds(name@, k as int);
    }
    String::from_str(name.substring_char(0, k))
}

/// The addresses that an enumeration entry shows: its IP networks, then its
/// hardware address.
pub open spec fn observed_addresses(o: ObservedInterface) -> Seq<Address> {
    o.ips@.map_values(|n: IpNetwork| Address::IP(n)) + match o.mac {
        Some(m) => seq![Address::MAC(m)],
        None => Seq::empty(),
    }
}

/// `addrs` with each address of `more` that it lacks appended, in order.
pub open spec fn add_missing(addrs: Seq<Address>, more: Seq<Address>) -> Seq<Address>
    decreases more.len(),
{
    if more.len() == 0 {
        addrs
    } else {
        let a = add_missing(addrs, more.drop_last());
        if a.contains(more.last()) {
            a
        } else {
            a.push(more.last())
        }
    }
}

/// Position of the first entry for `index` at or after `i`, or the length.
pub open spec fn entry_from(s: Seq<SnapEntry>, index: u32, i: int) -> int
    decreases s.len() - i,
{
    if i < 0 || i >= s.len() {
        s.len() as int
    } else if s[i].index == index {
        i
    } else {
        entry_from(s, index, i + 1)
    }
}

proof fn lemma_entry_from(s: Seq<SnapEntry>, index: u32, i: int)
    requires
        0 <= i <= s.len(),
    ensures
        i <= entry_from(s, index, i) <= s.len(),
        entry_from(s, index, i) < s.len() ==> s[entry_from(s, index, i)].index == index,
    decreases s.len() - i,
{
    if i < s.len() {
        lemma_entry_from(s, index, i + 1);
    }
}

/// A snapshot once one enumeration entry is added to it: aliases fold onto
/// the entry of their index, which keeps the name it was first seen with.
pub open spec fn observe(s: Seq<SnapEntry>, o: ObservedInterface) -> Seq<SnapEntry> {
    let k = entry_from(s, o.index, 0);
    if k < s.len() {
        s.update(k, SnapEntry { addresses: add_missing(s[k].addresses, observed_addresses(o)), ..s[k] })
    } else {
        s.push(
            SnapEntry {
                index: o.index,
                name: base_name(o.name@),
                addresses: add_missing(Seq::empty(), observed_addresses(o)),
            },
        )
    }
}

/// The snapshot that an enumeration gives.
pub open spec fn snapshot_of(obs: Seq<ObservedInterface>) -> Seq<SnapEntry>
    decreases obs.len(),
{
    if obs.len() == 0 {
        Seq::empty()
    } else {
        observe(snapshot_of(obs.drop_last()), obs.last())
    }
}

fn contains_address(v: &Vec<Address>, a: &Address) -> (r: bool)
    ensures
        r == v@.contains(*a),
{
    let mut i: usize = 0;
    while i < v.len()
        invariant
            i <= v@.len(),
            forall|j: int| 0 <= j < i ==> v@[j] != *a,
        decreases v@.len() - i,
    {
        if v[i] == *a {
            return true;
        }
        i = i + 1;
    }
    false
}

fn observed_address_list(o: &ObservedInterface) -> (r: Vec<Address>)
    ensures
        r@ == observed_addresses(*o),
{
    let mut r: Vec<Address> = Vec::new();
    let mut i: usize = 0;
    while i < o.ips.len()
        invariant
            i <= o.ips@.len(),
            r@ == o.ips@.subrange(0, i as int).map_values(|n: IpNetwork| Address::IP(n)),
        decreases o.ips@.len() - i,
    {
        r.push(Address::IP(o.ips[i]));
        i = i + 1;
        assert(r@ =~= o.ips@.subrange(0, i as int).map_values(|n: IpNetwork| Address::IP(n)));
    }
    assert(o.ips@.subrange(0, i as int) =~= o.ips@);
    if let Some(m) = o.mac {
        r.push(Address::MAC(m));
    }
    assert(r@ =~= observed_addresses(*o));
    r
}

fn add_missing_addresses(addrs: &mut Vec<Address>, more: &Vec<Address>)
    ensures
        final(addrs)@ == add_missing(old(addrs)@, more@),
{
    let mut i: usize = 0;
    while i < more.len()
        invariant
            i <= more@.len(),
            addrs@ == add_missing(old(addrs)@, more@.subrange(0, i as int)),
        decreases more@.len() - i,
    {
        let ghost next = more@.subrange(0, i as int + 1);
        assert(next.drop_last() =~= more@.subrange(0, i as int));
        if !contains_address(addrs, &more[i]) {
            addrs.push(more[i]);
        }
        i = i + 1;
    }
    assert(more@.subrange(0, i as int) =~= more@);
}

fn find_entry(s: &Vec<(u32, InterfaceInfo)>, index: u32) -> (r: usize)
    ensures
        r as int == entry_from(snapshot_view(s@), index, 0),
        r <= s@.len(),
{
    let ghost sv = snapshot_view(s@);
    let mut i: usize = 0;
    while i < s.len()
        invariant
            sv == snapshot_view(s@),
            i <= s@.len(),
            entry_from(sv, index, 0) == entry_from(sv, index, i as int),
        decreases s@.len() - i,
    {
        if s[i].0 == index {
            return i;
        }
        i = i + 1;
    }
    i
}

/// Folds an enumeration into a snapshot keyed by interface index.
fn snapshot_from(observed: &Vec<ObservedInterface>) -> (r: Vec<(u32, InterfaceInfo)>)
    ensures
        snapshot_view(r@) == snapshot_of(observed@),
{
    let mut current: Vec<(u32, InterfaceInfo)> = Vec::new();
    let mut i: usize = 0;
    assert(snapshot_view(current@) =~= Seq::<SnapEntry>::empty());
    while i < observed.len()
        invariant
            i <= observed@.len(),
            snapshot_view(current@) == snapshot_of(observed@.subrange(0, i as int)),
        decreases observed@.len() - i,
    {
        let o = &observed[i];
        let ghost before = snapshot_view(current@);
        let ghost next = observed@.subrange(0, i as int + 1);
        assert(next.drop_last() =~= observed@.subrange(0, i as int));
        let more = observed_address_list(o);
        let k = find_entry(&current, o.index);
        proof {
            lemma_entry_from(before, o.index, 0);
        }
        if k < current.len() {
            let (index, info) = current.remove(k);
            let mut addresses = info.addresses;
            add_missing_addresses(&mut addresses, &more);
            current.insert(k, (index, InterfaceInfo { name: info.name, addresses }));
            assert(snapshot_view(current@) =~= observe(before, *o));
        } else {
            let mut entry = InterfaceInfo { name: strip_alias(o.name.as_str()), addresses: Vec::new() };
            add_missing_addresses(&mut entry.addresses, &more);
            current.push((o.index, entry));
            assert(snapshot_view(current@) =~= observe(before, *o));
        }
        i = i + 1;
    }
    assert(observed@.subrange(0, i as int) =~= observed@);
    current
}

pub open spec fn rm_op(a: Address) -> NetEventOpView {
    match a {
        Address::IP(n) => NetEventOpView::RmIp(n.ip),
        Address::MAC(m) => NetEventOpView::RmMac(mac_string(m@)),
    }
}

pub open spec fn add_op(a: Address) -> NetEventOpView {
    match a {
        Address::IP(n) => NetEventOpView::AddIp(n.ip),
        Address::MAC(m) => NetEventOpView::AddMac(mac_string(m@)),
    }
}

/// Removal events for the addresses of `olds` that `news` lacks, in order.
pub open spec fn rm_events(h: IfaceHandle, olds: Seq<Address>, news: Seq<Address>) -> Seq<NetEventView>
    decreases olds.len(),
{
    if olds.len() == 0 {
        Seq::empty()
    } else {
        rm_events(h, olds.drop_last(), news) + if news.contains(olds.last()) {
            Seq::empty()
        } else {
            seq![event(h, rm_op(olds.last()))]
        }
    }
}

/// Addition events for the addresses of `news` that `olds` lacks, in order.
pub open spec fn add_events(h: IfaceHandle, news: Seq<Address>, olds: Seq<Address>) -> Seq<NetEventView>
    decreases news.len(),
{
    if news.len() == 0 {
        Seq::empty()
    } else {
        add_events(h, news.drop_last(), olds) + if olds.contains(news.last()) {
            Seq::empty()
        } else {
            seq![event(h, add_op(news.last()))]
        }
    }
}

/// Events for the first `n` entries of `prev`: lost addresses of the
/// interfaces still there, and the removal of those that are gone.
pub open spec fn removal_events(prev: Seq<SnapEntry>, cur: Seq<SnapEntry>, m: CacheView, n: int) -> Seq<NetEventView>
    decreases n,
{
    if n <= 0 {
        Seq::empty()
    } else {
        let p = prev[n - 1];
        let h = m.live[p.index];
        let j = entry_from(cur, p.index, 0);
        removal_events(prev, cur, m, n - 1) + if j < cur.len() {
            rm_events(h, p.addresses, cur[j].addresses)
        } else {
            seq![event(h, NetEventOpView::RmIface)]
        }
    }
}

/// Cache and events for the first `n` entries of `cur`: each interface is
/// looked up or created; a new one is announced with all its addresses,
/// one seen before with the addresses it gained.
pub open spec fn addition_events(prev: Seq<SnapEntry>, cur: Seq<SnapEntry>, m: CacheView, n: int) -> (
    CacheView,
    Seq<NetEventView>,
)
    decreases n,
{
    if n <= 0 {
        (m, Seq::empty())
    } else {
        let (m1, evs) = addition_events(prev, cur, m, n - 1);
        let c = cur[n - 1];
        let (m2, h) = m1.lookup_or_create(c.index, Some(c.name));
        let j = entry_from(prev, c.index, 0);
        if j < prev.len() {
            (m2, evs + add_events(h, c.addresses, prev[j].addresses))
        } else {
            (m2, evs + seq![event(h, NetEventOpView::AddIface)] + add_events(h, c.addresses, Seq::empty()))
        }
    }
}

/// The cache once the interfaces of the first `n` entries of `prev` that
/// `cur` lacks are evicted.
pub open spec fn evict_gone(prev: Seq<SnapEntry>, cur: Seq<SnapEntry>, m: CacheView, n: int) -> CacheView
    decreases n,
{
    if n <= 0 {
        m
    } else {
        let m1 = evict_gone(prev, cur, m, n - 1);
        if entry_from(cur, prev[n - 1].index, 0) < cur.len() {
            m1
        } else {
            m1.remove(prev[n - 1].index)
        }
    }
}

/// Cache and events of one period that goes from snapshot `prev` to `cur`.
pub open spec fn diff(prev: Seq<SnapEntry>, cur: Seq<SnapEntry>, m: CacheView) -> (
    CacheView,
    Seq<NetEventView>,
) {
    let removed = removal_events(prev, cur, m, prev.len() as int);
    let (m1, added) = addition_events(prev, cur, m, cur.len() as int);
    (evict_gone(prev, cur, m1, prev.len() as int), removed + added)
}

/// Every interface of a snapshot is known to the cache.
pub open spec fn snapshot_known(snapshot: Seq<SnapEntry>, m: CacheView) -> bool {
    forall|k: int| 0 <= k < snapshot.len() ==> m.live.contains_key(#[trigger] snapshot[k].index)
}

proof fn lemma_entry_from_le(s: Seq<SnapEntry>, i: int, k: int)
    requires
        0 <= i <= k < s.len(),
    ensures
        entry_from(s, s[k].index, i) <= k,
    decreases k - i,
{
    if i < k && s[i].index != s[k].index {
        lemma_entry_from_le(s, i + 1, k);
    }
}

proof fn lemma_addition_keeps_known(prev: Seq<SnapEntry>, cur: Seq<SnapEntry>, m: CacheView, n: int)
    requires
        0 <= n <= cur.len(),
    ensures
        forall|k: u32| m.live.contains_key(k) ==> addition_events(prev, cur, m, n).0.live.contains_key(k),
        forall|i: int| 0 <= i < n ==> addition_events(prev, cur, m, n).0.live.contains_key(#[trigger] cur[i].index),
    decreases n,
{
    if n > 0 {
        lemma_addition_keeps_known(prev, cur, m, n - 1);
    }
}

proof fn lemma_evict_keeps_current(prev: Seq<SnapEntry>, cur: Seq<SnapEntry>, m: CacheView, n: int)
    requires
        0 <= n <= prev.len(),
        snapshot_known(cur, m),
    ensures
        snapshot_known(cur, evict_gone(prev, cur, m, n)),
    decreases n,
{
    if n > 0 {
        lemma_evict_keeps_current(prev, cur, m, n - 1);
        let m1 = evict_gone(prev, cur, m, n - 1);
        assert forall|k: int| 0 <= k < cur.len() implies evict_gone(prev, cur, m, n).live.contains_key(#[trigger] cur[k].index) by {
            lemma_entry_from_le(cur, 0, k);
            assert(m1.live.contains_key(cur[k].index));
        }
    }
}

/// After a period, every interface of the new snapshot is known to the
/// cache.
pub proof fn lemma_diff_keeps_snapshot_known(prev: Seq<SnapEntry>, cur: Seq<SnapEntry>, m: CacheView)
    ensures
        snapshot_known(cur, diff(prev, cur, m).0),
{
    lemma_addition_keeps_known(prev, cur, m, cur.len() as int);
    let (m1, added) = addition_events(prev, cur, m, cur.len() as int);
    lemma_evict_keeps_current(prev, cur, m1, prev.len() as int);
}

fn rm_event_op(a: &Address) -> (r: NetEventOp)
    ensures
        r@ == rm_op(*a),
{
    match a {
        Address::IP(n) => NetEventOp::RmIp(n.ip),
        Address::MAC(m) => NetEventOp::RmMac(mac_address_string(m.as_slice())),
    }
}

fn add_event_op(a: &Address) -> (r: NetEventOp)
    ensures
        r@ == add_op(*a),
{
    match a {
        Address::IP(n) => NetEventOp::AddIp(n.ip),
        Address::MAC(m) => NetEventOp::AddMac(mac_address_string(m.as_slice())),
    }
}

fn push_rm_events(h: IfaceHandle, olds: &Vec<Address>, news: &Vec<Address>, events: &mut Vec<NetEvent>)
    ensures
        events_view(final(events)@) == events_view(old(events)@) + rm_events(h, olds@, news@),
{
    let mut i: usize = 0;
    assert(events_view(events@) =~= events_view(old(events)@) + rm_events(h, olds@.subrange(0, 0), news@));
    while i < olds.len()
        invariant
            i <= olds@.len(),
            events_view(events@) == events_view(old(events)@) + rm_events(h, olds@.subrange(0, i as int), news@),
        decreases olds@.len() - i,
    {
        let ghost next = olds@.subrange(0, i as int + 1);
        assert(next.drop_last() =~= olds@.subrange(0, i as int));
        let ghost before = events_view(events@);
        if !contains_address(news, &olds[i]) {
            events.push(NetEvent { iface: h, op: rm_event_op(&olds[i]) });
            assert(events_view(events@) =~= before + seq![event(h, rm_op(olds@[i as int]))]);
        } else {
            assert(events_view(events@) =~= before + Seq::<NetEventView>::empty());
        }
        assert(next.last() == olds@[i as int]);
        assert(events_view(events@) =~= events_view(old(events)@) + rm_events(h, next, news@));
        i = i + 1;
    }
    assert(olds@.subrange(0, i as int) =~= olds@);
}

fn push_add_events(h: IfaceHandle, news: &Vec<Address>, olds: &Vec<Address>, events: &mut Vec<NetEvent>)
    ensures
        events_view(final(events)@) == events_view(old(events)@) + add_events(h, news@, olds@),
{
    let mut i: usize = 0;
    assert(events_view(events@) =~= events_view(old(events)@) + add_events(h, news@.subrange(0, 0), olds@));
    while i < news.len()
        invariant
            i <= news@.len(),
            events_view(events@) == events_view(old(events)@) + add_events(h, news@.subrange(0, i as int), olds@),
        decreases news@.len() - i,
    {
        let ghost next = news@.subrange(0, i as int + 1);
        assert(next.drop_last() =~= news@.subrange(0, i as int));
        let ghost before = events_view(events@);
        if !contains_address(olds, &news[i]) {
            events.push(NetEvent { iface: h, op: add_event_op(&news[i]) });
            assert(events_view(events@) =~= before + seq![event(h, add_op(news@[i as int]))]);
        } else {
            assert(events_view(events@) =~= before + Seq::<NetEventView>::empty());
        }
        assert(next.last() == news@[i as int]);
        assert(events_view(events@) =~= events_view(old(events)@) + add_events(h, next, olds@));
        i = i + 1;
    }
    assert(news@.subrange(0, i as int) =~= news@);
}

/// Mathematical model of a [`NetworkSource`].
pub struct SnapshotSourceView {
    /// The snapshot of the previous period.
    pub snapshot: Seq<SnapEntry>,
    pub cache: CacheView,
}

/// Producer of interface events by periodic enumeration, for systems
/// without a change-notification transport.
pub struct NetworkSource {
    addresses_cache: Vec<(u32, InterfaceInfo)>,
    iface_cache: NetInterfaceCache,
}

impl View for NetworkSource {
    type V = SnapshotSourceView;

    closed spec fn view(&self) -> SnapshotSourceView {
        SnapshotSourceView { snapshot: snapshot_view(self.addresses_cache@), cache: self.iface_cache@ }
    }
}

impl NetworkSource {
    pub open spec fn well_formed(&self) -> bool {
        &&& self@.cache.well_formed()
        &&& snapshot_known(self@.snapshot, self@.cache)
    }

    /// A source whose previous snapshot is empty.
    pub fn new(iface_cache: NetInterfaceCache) -> (r: NetworkSource)
        requires
            iface_cache.well_formed(),
        ensures
            r.well_formed(),
            r@.snapshot.len() == 0,
            r@.cache == iface_cache@,
    {
        let r = NetworkSource { addresses_cache: Vec::new(), iface_cache };
        assert(r@.snapshot =~= Seq::<SnapEntry>::empty());
        r
    }

    /// The cache that events' handles refer to.
    pub fn iface_cache(&self) -> (r: &NetInterfaceCache)
        ensures
            r@ == self@.cache,
    {
        &self.iface_cache
    }

    /// The events of one period: the enumeration `observed` is folded into
    /// a snapshot and diffed against the previous one, which it then
    /// replaces.
    pub fn get_ifconfig_data(&mut self, observed: &Vec<ObservedInterface>) -> (r: Vec<NetEvent>)
        requires
            old(self).well_formed(),
        ensures
            final(self).well_formed(),
            ({
                let cur = snapshot_of(observed@);
                let (m, events) = diff(old(self)@.snapshot, cur, old(self)@.cache);
                &&& final(self)@.cache == m
                &&& events_view(r@) == events
                &&& final(self)@.snapshot == cur
            }),
    {
        let current = snapshot_from(observed);
        let ghost prev = snapshot_view(self.addresses_cache@);
        let ghost cur = snapshot_view(current@);
        let ghost m0 = self.iface_cache@;

        // disappearing addresses and interfaces
        let mut removed: Vec<NetEvent> = Vec::new();
        let mut i: usize = 0;
        assert(events_view(removed@) =~= Seq::<NetEventView>::empty());
        while i < self.addresses_cache.len()
            invariant
                prev == snapshot_view(self.addresses_cache@),
                cur == snapshot_view(current@),
                m0 == self.iface_cache@,
                m0.well_formed(),
                snapshot_known(prev, m0),
                i <= prev.len(),
                events_view(removed@) == removal_events(prev, cur, m0, i as int),
            decreases prev.len() - i,
        {
            let entry = &self.addresses_cache[i];
            assert(m0.live.contains_key(prev[i as int].index));
            let iface = self.iface_cache.handle(entry.0);
            let j = find_entry(&current, entry.0);
            if j < current.len() {
                push_rm_events(iface, &entry.1.addresses, &current[j].1.addresses, &mut removed);
            } else {
                removed.push(NetEvent { iface, op: NetEventOp::RmIface });
            }
            i = i + 1;
        }

        // appearing interfaces and addresses
        let mut added: Vec<NetEvent> = Vec::new();
        let mut i: usize = 0;
        assert(events_view(added@) =~= Seq::<NetEventView>::empty());
        while i < current.len()
            invariant
                prev == snapshot_view(self.addresses_cache@),
                cur == snapshot_view(current@),
                self.iface_cache.well_formed(),
                i <= cur.len(),
                (self.iface_cache@, events_view(added@)) == addition_events(prev, cur, m0, i as int),
            decreases cur.len() - i,
        {
            let entry = &current[i];
            let iface = self.iface_cache.lookup_or_create(entry.0, Some(entry.1.name.clone()));
            let j = find_entry(&self.addresses_cache, entry.0);
            if j < self.addresses_cache.len() {
                push_add_events(iface, &entry.1.addresses, &self.addresses_cache[j].1.addresses, &mut added);
            } else {
                added.push(NetEvent { iface, op: NetEventOp::AddIface });
                let none: Vec<Address> = Vec::new();
                push_add_events(iface, &entry.1.addresses, &none, &mut added);
                assert(none@ =~= Seq::<Address>::empty());
            }
            i = i + 1;
        }

        // evict the interfaces that are gone
        let ghost m1 = self.iface_cache@;
        let mut i: usize = 0;
        while i < self.addresses_cache.len()
            invariant
                prev == snapshot_view(self.addresses_cache@),
                cur == snapshot_view(current@),
                self.iface_cache.well_formed(),
                i <= prev.len(),
                self.iface_cache@ == evict_gone(prev, cur, m1, i as int),
            decreases prev.len() - i,
        {
            let index = self.addresses_cache[i].0;
            if find_entry(&current, index) == current.len() {
                self.iface_cache.remove(index);
            }
            i = i + 1;
        }

        proof {
            lemma_diff_keeps_snapshot_known(prev, cur, m0);
        }
        self.addresses_cache = current;
        let mut events = removed;
        let ghost rv = events_view(events@);
        let ghost av = events_view(added@);
        events.append(&mut added);
        assert(events_view(events@) =~= rv + av);
        events
    }
}

/// The diff of an interface's addresses is minimal: each removal event is
/// for an address that is gone, each addition event for one that is new,
/// so an address kept from one period to the next yields no event.
pub proof fn lemma_address_diff_minimal(h: IfaceHandle, olds: Seq<Address>, news: Seq<Address>)
    ensures
        forall|i: int|
            0 <= i < rm_events(h, olds, news).len() ==> exists|a: Address|
                olds.contains(a) && !news.contains(a) && #[trigger] rm_events(h, olds, news)[i]
                    == event(h, rm_op(a)),
        forall|i: int|
            0 <= i < add_events(h, news, olds).len() ==> exists|a: Address|
                news.contains(a) && !olds.contains(a) && #[trigger] add_events(h, news, olds)[i]
                    == event(h, add_op(a)),
    decreases olds.len() + news.len(),
{
    if olds.len() > 0 {
        lemma_address_diff_minimal(h, olds.drop_last(), news);
        let prev = rm_events(h, olds.drop_last(), news);
        assert forall|i: int| 0 <= i < rm_events(h, olds, news).len() implies exists|a: Address|
            olds.contains(a) && !news.contains(a) && #[trigger] rm_events(h, olds, news)[i]
                == event(h, rm_op(a)) by {
            if i < prev.len() {
                let a = choose|a: Address|
                    olds.drop_last().contains(a) && !news.contains(a) && prev[i] == event(h, rm_op(a));
                let j = choose|j: int| 0 <= j < olds.drop_last().len() && olds.drop_last()[j] == a;
                assert(olds[j] == a);
            } else {
                assert(olds[olds.len() - 1] == olds.last());
            }
        }
    }
    if news.len() > 0 {
        lemma_address_diff_minimal(h, olds, news.drop_last());
        let prev = add_events(h, news.drop_last(), olds);
        assert forall|i: int| 0 <= i < add_events(h, news, olds).len() implies exists|a: Address|
            news.contains(a) && !olds.contains(a) && #[trigger] add_events(h, news, olds)[i]
                == event(h, add_op(a)) by {
            if i < prev.len() {
                let a = choose|a: Address|
                    news.drop_last().contains(a) && !olds.contains(a) && prev[i] == event(h, add_op(a));
                let j = choose|j: int| 0 <= j < news.drop_last().len() && news.drop_last()[j] == a;
                assert(news[j] == a);
            } else {
                assert(news[news.len() - 1] == news.last());
            }
        }
    }
}

/// No two entries of a snapshot share an interface index.
pub open spec fn indexes_distinct(s: Seq<SnapEntry>) -> bool {
    forall|i: int, j: int| 0 <= i < j < s.len() ==> (#[trigger] s[i]).index != (#[trigger] s[j]).index
}

proof fn lemma_entry_from_distinct(s: Seq<SnapEntry>, k: int, i: int)
    requires
        indexes_distinct(s),
        0 <= k <= i < s.len(),
    ensures
        entry_from(s, s[i].index, k) == i,
    decreases i - k,
{
    if k < i {
        assert(s[k].index != s[i].index);
        lemma_entry_from_distinct(s, k + 1, i);
    }
}

proof fn lemma_no_events_within(h: IfaceHandle, olds: Seq<Address>, news: Seq<Address>)
    requires
        forall|i: int| 0 <= i < olds.len() ==> news.contains(#[trigger] olds[i]),
    ensures
        rm_events(h, olds, news).len() == 0,
        add_events(h, olds, news).len() == 0,
    decreases olds.len(),
{
    if olds.len() > 0 {
        let rest = olds.drop_last();
        assert forall|i: int| 0 <= i < rest.len() implies news.contains(#[trigger] rest[i]) by {
            assert(rest[i] == olds[i]);
        }
        lemma_no_events_within(h, rest, news);
        assert(news.contains(olds[olds.len() - 1]));
    }
}

proof fn lemma_self_diff_passes(s: Seq<SnapEntry>, m: CacheView, n: int)
    requires
        m.well_formed(),
        indexes_distinct(s),
        snapshot_known(s, m),
        0 <= n <= s.len(),
    ensures
        removal_events(s, s, m, n).len() == 0,
        addition_events(s, s, m, n) == (m, Seq::<NetEventView>::empty()),
        evict_gone(s, s, m, n) == m,
    decreases n,
{
    if n > 0 {
        lemma_self_diff_passes(s, m, n - 1);
        let p = s[n - 1];
        lemma_entry_from_distinct(s, 0, n - 1);
        assert forall|i: int| 0 <= i < p.addresses.len() implies p.addresses.contains(#[trigger] p.addresses[i]) by {
        }
        lemma_no_events_within(m.live[p.index], p.addresses, p.addresses);
        assert(m.live.contains_key(p.index));
        assert(Seq::<NetEventView>::empty() + Seq::<NetEventView>::empty() =~= Seq::<NetEventView>::empty());
        assert(removal_events(s, s, m, n) =~= Seq::<NetEventView>::empty());
    }
}

/// An enumeration that shows what the previous one showed yields no event
/// and leaves the cache as it was.
pub proof fn lemma_unchanged_snapshot_quiet(s: Seq<SnapEntry>, m: CacheView)
    requires
        m.well_formed(),
        indexes_distinct(s),
        snapshot_known(s, m),
    ensures
        diff(s, s, m) == (m, Seq::<NetEventView>::empty()),
{
    lemma_self_diff_passes(s, m, s.len() as int);
    assert(removal_events(s, s, m, s.len() as int) =~= Seq::<NetEventView>::empty());
    assert(Seq::<NetEventView>::empty() + Seq::<NetEventView>::empty() =~= Seq::<NetEventView>::empty());
}

} // verus!
