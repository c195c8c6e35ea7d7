use vstd::prelude::*;
use std::collections::HashMap;
use crate::datastructs::{IpAddress, NetInterface};

verus! {

/// Number of address slots of each family of an interface in the schema.
pub const NUM_IFACE_IPS: usize = 10;

/// Why an address got no slot.
#[derive(Clone, Copy, Debug, PartialEq, Eq, Structural)]
pub enum SlotError {
    /// Every slot of the table holds another address.
    NoFreeSlot,
}

/// First slot at or after `i` that holds `ip`, or the table's length.
pub open spec fn slot_holding_from(list: Seq<Option<IpAddress>>, ip: IpAddress, i: int) -> int
    decreases list.len() - i,
{
    if i < 0 || i >= list.len() {
        list.len() as int
    } else if list[i] == Some(ip) {
        i
    } else {
        slot_holding_from(list, ip, i + 1)
    }
}

/// First free slot at or after `i`, or the table's length.
pub open spec fn free_slot_from(list: Seq<Option<IpAddress>>, i: int) -> int
    decreases list.len() - i,
{
    if i < 0 || i >= list.len() {
        list.len() as int
    } else if list[i] is None {
        i
    } else {
        free_slot_from(list, i + 1)
    }
}

/// Table and result once `ip` asks for a slot: the slot that already holds
/// it, else the first free slot, which then holds it, else an error.
pub open spec fn assign_slot(list: Seq<Option<IpAddress>>, ip: IpAddress) -> (
    Seq<Option<IpAddress>>,
    Result<usize, SlotError>,
) {
    let held = slot_holding_from(list, ip, 0);
    let free = free_slot_from(list, 0);
    if held < list.len() {
        (list, Ok(held as usize))
    } else if free < list.len() {
        (list.update(free, Some(ip)), Ok(free as usize))
    } else {
        (list, Err(SlotError::NoFreeSlot))
    }
}

/// Table and result once the slot of `ip` is freed, if one holds it.
pub open spec fn release_slot(list: Seq<Option<IpAddress>>, ip: IpAddress) -> (
    Seq<Option<IpAddress>>,
    Option<usize>,
) {
    let held = slot_holding_from(list, ip, 0);
    if held < list.len() {
        (list.update(held, None), Some(held as usize))
    } else {
        (list, None)
    }
}

/// No address occupies two slots.
pub open spec fn slots_distinct(list: Seq<Option<IpAddress>>) -> bool {
    forall|i: int, j: int|
        0 <= i < j < list.len() && (#[trigger] list[i]) is Some ==> list[i] != #[trigger] list[j]
}

proof fn lemma_slot_holding_found(list: Seq<Option<IpAddress>>, ip: IpAddress, i: int)
    requires
        0 <= i <= list.len(),
    ensures
        slot_holding_from(list, ip, i) < list.len() ==> list[slot_holding_from(list, ip, i)] == Some(ip)
            && i <= slot_holding_from(list, ip, i),
        slot_holding_from(list, ip, i) == list.len() ==> forall|j: int|
            i <= j < list.len() ==> list[j] != Some(ip),
        slot_holding_from(list, ip, i) <= list.len(),
    decreases list.len() - i,
{
    if i < list.len() {
        lemma_slot_holding_found(list, ip, i + 1);
    }
}

proof fn lemma_free_slot_found(list: Seq<Option<IpAddress>>, i: int)
    requires
        0 <= i <= list.len(),
    ensures
        free_slot_from(list, i) < list.len() ==> list[free_slot_from(list, i)] is None && i
            <= free_slot_from(list, i),
        free_slot_from(list, i) <= list.len(),
    decreases list.len() - i,
{
    if i < list.len() {
        lemma_free_slot_found(list, i + 1);
    }
}

/// Gives `ip` a slot of the table: the one that already holds it, else the
/// first free one.
pub fn get_ip_slot(ip: &IpAddress, list: &mut Vec<Option<IpAddress>>) -> (r: Result<usize, SlotError>)
    ensures
        (final(list)@, r) == assign_slot(old(list)@, *ip),
{
    let mut empty_idx: Option<usize> = None;
    let mut idx: usize = 0;
    while idx < list.len()
        invariant
            list@ == old(list)@,
            idx <= list@.len(),
            slot_holding_from(list@, *ip, 0) == slot_holding_from(list@, *ip, idx as int),
            match empty_idx {
                Some(e) => free_slot_from(list@, 0) == e && e < idx,
                None => free_slot_from(list@, 0) == free_slot_from(list@, idx as int),
            },
        decreases list@.len() - idx,
    {
        match &list[idx] {
            Some(item) => {
                if *item == *ip {
                    return Ok(idx);
                }
            },
            None => {
                if empty_idx.is_none() {
                    empty_idx = Some(idx);
                }
            },
        }
        idx = idx + 1;
    }
    proof {
        lemma_slot_holding_found(list@, *ip, 0);
        lemma_free_slot_found(list@, 0);
    }
    if let Some(idx) = empty_idx {
        list.set(idx, Some(*ip));
        return Ok(idx);
    }
    Err(SlotError::NoFreeSlot)
}

/// Frees the slot that holds `ip`, if one does, and returns it. Other slots
/// keep their addresses.
pub fn release_ip_slot(ip: &IpAddress, list: &mut Vec<Option<IpAddress>>) -> (r: Option<usize>)
    ensures
        (final(list)@, r) == release_slot(old(list)@, *ip),
{
    let mut idx: usize = 0;
    while idx < list.len()
        invariant
            list@ == old(list)@,
            idx <= list@.len(),
            slot_holding_from(list@, *ip, 0) == slot_holding_from(list@, *ip, idx as int),
        decreases list@.len() - idx,
    {
        if let Some(item) = &list[idx] {
            if *item == *ip {
                list.set(idx, None);
                return Some(idx);
            }
        }
        idx = idx + 1;
    }
    None
}

/// Asking again for the slot of an address that got one returns that slot
/// and changes nothing.
pub proof fn lemma_slot_reassign(list: Seq<Option<IpAddress>>, ip: IpAddress)
    requires
        list.len() <= usize::MAX,
        assign_slot(list, ip).1 is Ok,
    ensures
        ({
            let (l1, r1) = assign_slot(list, ip);
            assign_slot(l1, ip) == (l1, r1)
        }),
{
    let (l1, r1) = assign_slot(list, ip);
    let k = r1->Ok_0 as int;
    lemma_slot_holding_found(list, ip, 0);
    lemma_free_slot_found(list, 0);
    lemma_slot_holding_found(l1, ip, 0);
    assert(l1[k] == Some(ip));
    if slot_holding_from(l1, ip, 0) < k {
        assert(l1[slot_holding_from(l1, ip, 0)] == list[slot_holding_from(l1, ip, 0)]);
    }
    assert(slot_holding_from(l1, ip, 0) == k);
}

/// Two addresses that get slots one after the other get distinct slots, and
/// the first keeps its slot.
pub proof fn lemma_slots_of_distinct_addresses(list: Seq<Option<IpAddress>>, a: IpAddress, b: IpAddress)
    requires
        list.len() <= usize::MAX,
        a != b,
        assign_slot(list, a).1 is Ok,
        assign_slot(assign_slot(list, a).0, b).1 is Ok,
    ensures
        ({
            let (l1, ra) = assign_slot(list, a);
            let (l2, rb) = assign_slot(l1, b);
            &&& ra != rb
            &&& l2[ra->Ok_0 as int] == Some(a)
        }),
{
    let (l1, ra) = assign_slot(list, a);
    lemma_slot_holding_found(list, a, 0);
    lemma_free_slot_found(list, 0);
    lemma_slot_holding_found(l1, b, 0);
    lemma_free_slot_found(l1, 0);
}

/// A table refuses an address exactly when every slot holds another
/// address.
pub proof fn lemma_slot_exhaustion(list: Seq<Option<IpAddress>>, ip: IpAddress)
    ensures
        assign_slot(list, ip).1 is Err <==> forall|j: int|
            0 <= j < list.len() ==> (#[trigger] list[j]) is Some && list[j] != Some(ip),
{
    lemma_slot_holding_found(list, ip, 0);
    lemma_free_slot_found(list, 0);
    if assign_slot(list, ip).1 is Err {
        assert forall|j: int| 0 <= j < list.len() implies (#[trigger] list[j]) is Some && list[j]
            != Some(ip) by {
            if list[j] is None {
                lemma_free_slot_le(list, 0, j);
            }
        }
    }
}

proof fn lemma_free_slot_le(list: Seq<Option<IpAddress>>, i: int, j: int)
    requires
        0 <= i <= j < list.len(),
        list[j] is None,
    ensures
        free_slot_from(list, i) <= j,
    decreases j - i,
{
    if i < j && list[i] is Some {
        lemma_free_slot_le(list, i + 1, j);
    }
}

/// Freeing the slot of an address makes room: any address then gets a slot.
pub proof fn lemma_release_makes_room(list: Seq<Option<IpAddress>>, a: IpAddress, c: IpAddress)
    requires
        list.len() <= usize::MAX,
        release_slot(list, a).1 is Some,
    ensures
        assign_slot(release_slot(list, a).0, c).1 is Ok,
{
    let (l1, k) = release_slot(list, a);
    lemma_slot_holding_found(list, a, 0);
    lemma_free_slot_le(l1, 0, k->Some_0 as int);
    lemma_slot_holding_found(l1, c, 0);
}

/// Assigning and freeing keep each address in at most one slot.
pub proof fn lemma_slots_stay_distinct(list: Seq<Option<IpAddress>>, ip: IpAddress)
    requires
        slots_distinct(list),
    ensures
        slots_distinct(assign_slot(list, ip).0),
        slots_distinct(release_slot(list, ip).0),
{
    lemma_slot_holding_found(list, ip, 0);
    lemma_free_slot_found(list, 0);
    let l1 = assign_slot(list, ip).0;
    assert forall|i: int, j: int|
        0 <= i < j < l1.len() && (#[trigger] l1[i]) is Some implies l1[i] != #[trigger] l1[j] by {
        if l1 != list {
            let f = free_slot_from(list, 0);
            if i == f {
                assert(list[j] != Some(ip));
            } else if j == f {
                assert(list[i] != Some(ip));
            } else {
                assert(list[i] != list[j]);
            }
        } else {
            assert(list[i] != list[j]);
        }
    }
    let l2 = release_slot(list, ip).0;
    assert forall|i: int, j: int|
        0 <= i < j < l2.len() && (#[trigger] l2[i]) is Some implies l2[i] != #[trigger] l2[j] by {
        assert(list[i] != list[j]);
    }
}

/// Address slots of one interface, one table per family.
pub struct IfaceIpStruct {
    pub v4: Vec<Option<IpAddress>>,
    pub v6: Vec<Option<IpAddress>>,
}

pub open spec fn is_v6(ip: IpAddress) -> bool {
    ip is V6
}

pub open spec fn empty_table() -> Seq<Option<IpAddress>> {
    Seq::new(NUM_IFACE_IPS as nat, |i: int| None::<IpAddress>)
}

pub open spec fn decimal_digits() -> Seq<char> {
    seq!['0', '1', '2', '3', '4', '5', '6', '7', '8', '9']
}

/// Key of an address slot under its interface: `ipv4/<slot>` or
/// `ipv6/<slot>`.
pub open spec fn slot_key(v6: bool, slot: usize) -> Seq<char> {
    (if v6 {
        seq!['i', 'p', 'v', '6', '/']
    } else {
        seq!['i', 'p', 'v', '4', '/']
    }) + seq![decimal_digits()[slot as int]]
}

/// Mathematical model of a [`Schema`]: the two slot tables of each
/// interface index that has had an address.
pub struct SchemaView {
    pub tables: Map<u32, (Seq<Option<IpAddress>>, Seq<Option<IpAddress>>)>,
}

impl SchemaView {
    /// The table of one family of interface `index`.
    pub open spec fn table(self, index: u32, v6: bool) -> Seq<Option<IpAddress>> {
        if self.tables.contains_key(index) {
            if v6 {
                self.tables[index].1
            } else {
                self.tables[index].0
            }
        } else {
            empty_table()
        }
    }

    /// The model once the table of one family of `index` is `t`.
    pub open spec fn with_table(self, index: u32, v6: bool, t: Seq<Option<IpAddress>>) -> SchemaView {
        let pair = if self.tables.contains_key(index) {
            self.tables[index]
        } else {
            (empty_table(), empty_table())
        };
        SchemaView {
            tables: self.tables.insert(index, if v6 { (pair.0, t) } else { (t, pair.1) }),
        }
    }

    pub open spec fn well_formed(self) -> bool {
        forall|k: u32| #[trigger] self.tables.contains_key(k) ==> {
            &&& self.tables[k].0.len() == NUM_IFACE_IPS
            &&& self.tables[k].1.len() == NUM_IFACE_IPS
        }
    }
}

/// Slot state of the xenstore schema that keys interface addresses by small
/// integers.
pub struct Schema {
    ip_addresses: HashMap<u32, IfaceIpStruct>,
}

impl View for Schema {
    type V = SchemaView;

    closed spec fn view(&self) -> SchemaView {
        SchemaView { tables: self.ip_addresses@.map_values(|e: IfaceIpStruct| (e.v4@, e.v6@)) }
    }
}

fn empty_slots() -> (r: Vec<Option<IpAddress>>)
    ensures
        r@ == empty_table(),
{
    let mut r: Vec<Option<IpAddress>> = Vec::new();
    let mut i: usize = 0;
    while i < NUM_IFACE_IPS
        invariant
            i <= NUM_IFACE_IPS,
            r@ == Seq::new(i as nat, |j: int| None::<IpAddress>),
        decreases NUM_IFACE_IPS - i,
    {
        r.push(None);
        i = i + 1;
        assert(r@ =~= Seq::new(i as nat, |j: int| None::<IpAddress>));
    }
    r
}

fn key_for_slot(v6: bool, slot: usize) -> (r: String)
    requires
        slot < NUM_IFACE_IPS,
    ensures
        r@ == slot_key(v6, slot),
{
    let mut r = if v6 {
        proof {
            reveal_strlit("ipv6/");
        }
        String::from_str("ipv6/")
    } else {
        proof {
            reveal_strlit("ipv4/");
        }
        String::from_str("ipv4/")
    };
    let digits = "0123456789";
    proof {
        reveal_strlit("0123456789");
    }
    assert(digits@ =~= decimal_digits());
    r.append(digits.substring_ascii(slot, slot + 1));
    assert(r@ =~= slot_key(v6, slot));
    r
}

impl Schema {
    pub open spec fn well_formed(&self) -> bool {
        self@.well_formed()
    }

    pub fn new() -> (r: Schema)
        ensures
            r.well_formed(),
            r@.tables == Map::<u32, (Seq<Option<IpAddress>>, Seq<Option<IpAddress>>)>::empty(),
    {
        let r = Schema { ip_addresses: HashMap::new() };
        assert(r@.tables =~= Map::<u32, (Seq<Option<IpAddress>>, Seq<Option<IpAddress>>)>::empty());
        r
    }

    /// Takes the tables of `index` out of the map, or fresh ones.
    fn take_tables(&mut self, index: u32) -> (r: IfaceIpStruct)
        requires
            old(self).well_formed(),
        ensures
            final(self).well_formed(),
            final(self)@.tables == old(self)@.tables.remove(index),
            r.v4@ == old(self)@.table(index, false),
            r.v6@ == old(self)@.table(index, true),
    {
        broadcast use vstd::std_specs::hash::group_hash_axioms;
        let r = match self.ip_addresses.remove(&index) {
            Some(e) => e,
            None => IfaceIpStruct { v4: empty_slots(), v6: empty_slots() },
        };
        assert(self@.tables =~= old(self)@.tables.remove(index));
        r
    }

    /// The key suffix of the slot that `addr` takes on interface `iface`:
    /// the slot that already holds it, else the first free one of its
    /// family.
    pub fn munged_address(&mut self, addr: &IpAddress, iface: &NetInterface) -> (r: Result<String, SlotError>)
        requires
            old(self).well_formed(),
        ensures
            final(self).well_formed(),
            ({
                let (t, slot) = assign_slot(old(self)@.table(iface.index, is_v6(*addr)), *addr);
                &&& final(self)@ == old(self)@.with_table(iface.index, is_v6(*addr), t)
                &&& match (r, slot) {
                    (Ok(key), Ok(k)) => key@ == slot_key(is_v6(*addr), k),
                    (Err(e), Err(f)) => e == f,
                    _ => false,
                }
            }),
    {
        broadcast use vstd::std_specs::hash::group_hash_axioms;
        let mut entry = self.take_tables(iface.index);
        let v6 = match addr {
            IpAddress::V4(_) => false,
            IpAddress::V6(_) => true,
        };
        let slot = if v6 {
            get_ip_slot(addr, &mut entry.v6)
        } else {
            get_ip_slot(addr, &mut entry.v4)
        };
        proof {
            lemma_slot_holding_found(old(self)@.table(iface.index, is_v6(*addr)), *addr, 0);
            lemma_free_slot_found(old(self)@.table(iface.index, is_v6(*addr)), 0);
        }
        let ghost mid = self@.tables;
        let ghost pair = (entry.v4@, entry.v6@);
        self.ip_addresses.insert(iface.index, entry);
        proof {
            assert(self@.tables =~= mid.insert(iface.index, pair));
            let t = assign_slot(old(self)@.table(iface.index, is_v6(*addr)), *addr).0;
            let expect = old(self)@.with_table(iface.index, is_v6(*addr), t);
            if v6 {
                assert(entry.v4@ == old(self)@.table(iface.index, false));
                assert(entry.v6@ == t);
            } else {
                assert(entry.v4@ == t);
                assert(entry.v6@ == old(self)@.table(iface.index, true));
            }
            assert(mid.insert(iface.index, pair) =~= old(self)@.tables.insert(iface.index, pair));
            assert(self@.tables =~= expect.tables);
        }
        match slot {
            Ok(k) => Ok(key_for_slot(v6, k)),
            Err(e) => Err(e),
        }
    }

    /// Frees the slot of `addr` on interface `iface`, if one holds it, and
    /// returns its key suffix. The other slots keep their numbers.
    pub fn release_address(&mut self, addr: &IpAddress, iface: &NetInterface) -> (r: Option<String>)
        requires
            old(self).well_formed(),
        ensures
            final(self).well_formed(),
            ({
                let (t, slot) = release_slot(old(self)@.table(iface.index, is_v6(*addr)), *addr);
                &&& final(self)@ == old(self)@.with_table(iface.index, is_v6(*addr), t)
                &&& match (r, slot) {
                    (Some(key), Some(k)) => key@ == slot_key(is_v6(*addr), k),
                    (None, None) => true,
                    _ => false,
                }
            }),
    {
        broadcast use vstd::std_specs::hash::group_hash_axioms;
        let mut entry = self.take_tables(iface.index);
        let v6 = match addr {
            IpAddress::V4(_) => false,
            IpAddress::V6(_) => true,
        };
        let slot = if v6 {
            release_ip_slot(addr, &mut entry.v6)
        } else {
            release_ip_slot(addr, &mut entry.v4)
        };
        proof {
            lemma_slot_holding_found(old(self)@.table(iface.index, is_v6(*addr)), *addr, 0);
        }
        let ghost mid = self@.tables;
        let ghost pair = (entry.v4@, entry.v6@);
        self.ip_addresses.insert(iface.index, entry);
        proof {
            assert(self@.tables =~= mid.insert(iface.index, pair));
            let t = release_slot(old(self)@.table(iface.index, is_v6(*addr)), *addr).0;
            let expect = old(self)@.with_table(iface.index, is_v6(*addr), t);
            if v6 {
                assert(entry.v4@ == old(self)@.table(iface.index, false));
                assert(entry.v6@ == t);
            } else {
                assert(entry.v4@ == t);
                assert(entry.v6@ == old(self)@.table(iface.index, true));
            }
            assert(mid.insert(iface.index, pair) =~= old(self)@.tables.insert(iface.index, pair));
            assert(self@.tables =~= expect.tables);
        }
        match slot {
            Some(k) => Some(key_for_slot(v6, k)),
            None => None,
        }
    }
}

} // verus!
