use vstd::prelude::*;
use crate::datastructs::{
    CacheView, IfaceHandle, IpAddress, NetEvent, NetEventOp, NetEventOpView, NetEventView,
    NetInterfaceCache, events_view,
};

verus! {

/// Address family code of IPv4 in address messages.
pub const AF_INET: u8 = 2;

/// Address family code of IPv6 in address messages.
pub const AF_INET6: u8 = 10;

/// An attribute of a link message.
pub enum LinkAttribute {
    IfName(String),
    /// Hardware address bytes.
    Address(Vec<u8>),
    /// An attribute that nothing here reads.
    Other,
}

/// A new-link or delete-link message.
pub struct LinkMessage {
    pub index: u32,
    pub attributes: Vec<LinkAttribute>,
}

/// An attribute of an address message.
pub enum AddressAttribute {
    /// Raw address bytes, most significant first.
    Address(Vec<u8>),
    /// An attribute that nothing here reads.
    Other,
}

/// A new-address or delete-address message.
pub struct AddressMessage {
    pub family: u8,
    pub index: u32,
    pub attributes: Vec<AddressAttribute>,
}

/// One routing change-notification message.
pub enum RouteMessage {
    NewLink(LinkMessage),
    DelLink(LinkMessage),
    NewAddress(AddressMessage),
    DelAddress(AddressMessage),
    /// A message of another kind, by its message type.
    Other(u16),
}

/// Why a message could not be decoded.
#[derive(Clone, Copy, Debug, PartialEq, Eq, Structural)]
pub enum DecodeError {
    /// A message of a kind that is not handled, by its message type.
    Unhandled(u16),
    /// An address message for an interface index that no link message
    /// introduced.
    UnknownInterface(u32),
    /// An address message without an address, by interface index.
    MissingAddress(u32),
    /// An address whose length does not match its family.
    MalformedAddress { family: u8, len: usize },
}

pub open spec fn hex_digits() -> Seq<char> {
    seq!['0', '1', '2', '3', '4', '5', '6', '7', '8', '9', 'a', 'b', 'c', 'd', 'e', 'f']
}

/// Two lowercase hex digits of a byte.
pub open spec fn hex_byte(b: u8) -> Seq<char> {
    seq![hex_digits()[b as int / 16], hex_digits()[b as int % 16]]
}

/// Lowercase hex octets separated by colons.
pub open spec fn mac_string(bytes: Seq<u8>) -> Seq<char>
    decreases bytes.len(),
{
    if bytes.len() == 0 {
        Seq::empty()
    } else if bytes.len() == 1 {
        hex_byte(bytes[0])
    } else {
        mac_string(bytes.drop_last()) + seq![':'] + hex_byte(bytes.last())
    }
}

fn hex_digit(n: u8) -> (r: &'static str)
    requires
        n < 16,
    ensures
        r@ == seq![hex_digits()[n as int]],
{
    let digits = "0123456789abcdef";
    proof {
        reveal_strlit("0123456789abcdef");
    }
    assert(digits@ == hex_digits());
    let r = digits.substring_ascii(n as usize, n as usize + 1);
    assert(r@ =~= seq![hex_digits()[n as int]]);
    r
}

/// Renders hardware-address bytes as lowercase colon-separated hex octets.
pub fn mac_address_string(bytes: &[u8]) -> (r: String)
    ensures
        r@ == mac_string(bytes@),
{
    let mut r = String::new();
    let mut i: usize = 0;
    while i < bytes.len()
        invariant
            i <= bytes@.len(),
            r@ == mac_string(bytes@.subrange(0, i as int)),
        decreases bytes@.len() - i,
    {
        let b = bytes[i];
        let ghost prev = bytes@.subrange(0, i as int);
        let ghost next = bytes@.subrange(0, i as int + 1);
        assert(next.drop_last() =~= prev);
        if i > 0 {
            r.append(":");
            proof {
                reveal_strlit(":");
            }
        }
        r.append(hex_digit(b / 16));
        r.append(hex_digit(b % 16));
        assert(r@ =~= mac_string(next));
        i = i + 1;
    }
    assert(bytes@.subrange(0, i as int) =~= bytes@);
    r
}

/// The name that the last name attribute gives.
pub open spec fn last_name(attrs: Seq<LinkAttribute>) -> Option<Seq<char>>
    decreases attrs.len(),
{
    if attrs.len() == 0 {
        None
    } else {
        match attrs.last() {
            LinkAttribute::IfName(n) => Some(n@),
            _ => last_name(attrs.drop_last()),
        }
    }
}

/// The bytes that the last hardware-address attribute gives.
pub open spec fn last_mac(attrs: Seq<LinkAttribute>) -> Option<Seq<u8>>
    decreases attrs.len(),
{
    if attrs.len() == 0 {
        None
    } else {
        match attrs.last() {
            LinkAttribute::Address(b) => Some(b@),
            _ => last_mac(attrs.drop_last()),
        }
    }
}

/// The bytes of the first address attribute.
pub open spec fn first_address(attrs: Seq<AddressAttribute>) -> Option<Seq<u8>>
    decreases attrs.len(),
{
    if attrs.len() == 0 {
        None
    } else {
        match attrs[0] {
            AddressAttribute::Address(b) => Some(b@),
            _ => first_address(attrs.drop_first()),
        }
    }
}

/// Cache and handle once a link message is applied: its interface is
/// looked up or created, and takes the message's name if it has one.
pub open spec fn link_decode(m: CacheView, msg: LinkMessage) -> (CacheView, IfaceHandle) {
    let name = last_name(msg.attributes@);
    let (m1, h) = m.lookup_or_create(msg.index, name);
    match name {
        Some(n) => (m1.rename(h, n), h),
        None => (m1, h),
    }
}

/// The rendered hardware address of a link message, if it has one.
pub open spec fn link_mac(msg: LinkMessage) -> Option<Seq<char>> {
    match last_mac(msg.attributes@) {
        Some(b) => Some(mac_string(b)),
        None => None,
    }
}

/// Address length that a family code implies, for the families handled.
pub open spec fn address_len(family: u8) -> Option<nat> {
    if family == AF_INET {
        Some(4)
    } else if family == AF_INET6 {
        Some(16)
    } else {
        None
    }
}

/// The address of a family from its bytes.
pub open spec fn ip_of(family: u8, b: Seq<u8>) -> IpAddress {
    if family == AF_INET {
        IpAddress::V4([b[0], b[1], b[2], b[3]])
    } else {
        IpAddress::V6(
            [
                b[0],
                b[1],
                b[2],
                b[3],
                b[4],
                b[5],
                b[6],
                b[7],
                b[8],
                b[9],
                b[10],
                b[11],
                b[12],
                b[13],
                b[14],
                b[15],
            ],
        )
    }
}

/// What an address message gives: nothing for a family not handled, else
/// the handle of its interface and its address, or why it cannot be read.
pub open spec fn address_decode(m: CacheView, msg: AddressMessage) -> Result<
    Option<(IfaceHandle, IpAddress)>,
    DecodeError,
> {
    match address_len(msg.family) {
        None => Ok(None),
        Some(n) => if !m.live.contains_key(msg.index) {
            Err(DecodeError::UnknownInterface(msg.index))
        } else {
            match first_address(msg.attributes@) {
                None => Err(DecodeError::MissingAddress(msg.index)),
                Some(b) => if b.len() == n {
                    Ok(Some((m.live[msg.index], ip_of(msg.family, b))))
                } else {
                    Err(DecodeError::MalformedAddress { family: msg.family, len: b.len() as usize })
                },
            }
        },
    }
}

pub open spec fn event(h: IfaceHandle, op: NetEventOpView) -> NetEventView {
    NetEventView { iface: h, op }
}

/// Cache and events once one message is decoded; an error leaves the
/// cache as it was.
pub open spec fn decode(m: CacheView, msg: RouteMessage) -> (
    CacheView,
    Result<Seq<NetEventView>, DecodeError>,
) {
    match msg {
        RouteMessage::NewLink(l) => {
            let (m1, h) = link_decode(m, l);
            let add = seq![event(h, NetEventOpView::AddIface)];
            match link_mac(l) {
                Some(mac) => (m1, Ok(add.push(event(h, NetEventOpView::AddMac(mac))))),
                None => (m1, Ok(add)),
            }
        },
        RouteMessage::DelLink(l) => {
            let (m1, h) = link_decode(m, l);
            let rm = seq![event(h, NetEventOpView::RmIface)];
            match link_mac(l) {
                Some(mac) => (
                    m1.remove(l.index),
                    Ok(seq![event(h, NetEventOpView::RmMac(mac))] + rm),
                ),
                None => (m1.remove(l.index), Ok(rm)),
            }
        },
        RouteMessage::NewAddress(a) => match address_decode(m, a) {
            Ok(Some((h, ip))) => (m, Ok(seq![event(h, NetEventOpView::AddIp(ip))])),
            Ok(None) => (m, Ok(Seq::empty())),
            Err(e) => (m, Err(e)),
        },
        RouteMessage::DelAddress(a) => match address_decode(m, a) {
            Ok(Some((h, ip))) => (m, Ok(seq![event(h, NetEventOpView::RmIp(ip))])),
            Ok(None) => (m, Ok(Seq::empty())),
            Err(e) => (m, Err(e)),
        },
        RouteMessage::Other(kind) => (m, Err(DecodeError::Unhandled(kind))),
    }
}

pub open spec fn opt_string_view_of(s: Option<String>) -> Option<Seq<char>> {
    match s {
        Some(s) => Some(s@),
        None => None,
    }
}

pub open spec fn result_view(r: Result<Vec<NetEvent>, DecodeError>) -> Result<
    Seq<NetEventView>,
    DecodeError,
> {
    match r {
        Ok(v) => Ok(events_view(v@)),
        Err(e) => Err(e),
    }
}

/// Where the start-up exchange stands: the link dump, then the address
/// dump, then live notifications.
#[derive(Clone, Copy, Debug, PartialEq, Eq, Structural)]
pub enum Phase {
    DumpingLinks,
    DumpingAddresses,
    Live,
}

/// Mathematical model of a [`NetworkSource`].
pub struct SourceView {
    pub phase: Phase,
    /// Live messages held back until the dump is complete, oldest first.
    pub pending: Seq<RouteMessage>,
    pub cache: CacheView,
}

/// The decoder of routing notifications, with the cache of interfaces
/// that its events refer to.
pub struct NetworkSource {
    phase: Phase,
    pending: Vec<RouteMessage>,
    iface_cache: NetInterfaceCache,
}

impl View for NetworkSource {
    type V = SourceView;

    closed spec fn view(&self) -> SourceView {
        SourceView { phase: self.phase, pending: self.pending@, cache: self.iface_cache@ }
    }
}

/// What the runner of a [`NetworkSource`] hands it.
pub enum SourceInput {
    /// A message of the response to the current dump request.
    DumpMessage(RouteMessage),
    /// The end of the response to the current dump request.
    DumpDone,
    /// A message of the live subscription.
    LiveMessage(RouteMessage),
}

/// Phase, held-back live messages, and the messages to decode now, once
/// `input` arrives. Live messages wait until both dumps are complete, then
/// go to the decoder in their order of arrival.
pub open spec fn schedule(phase: Phase, pending: Seq<RouteMessage>, input: SourceInput) -> (
    Phase,
    Seq<RouteMessage>,
    Seq<RouteMessage>,
) {
    match input {
        SourceInput::DumpMessage(m) => (phase, pending, seq![m]),
        SourceInput::DumpDone => match phase {
            Phase::DumpingLinks => (Phase::DumpingAddresses, pending, Seq::empty()),
            Phase::DumpingAddresses => (Phase::Live, Seq::empty(), pending),
            Phase::Live => (Phase::Live, pending, Seq::empty()),
        },
        SourceInput::LiveMessage(m) => if phase == Phase::Live {
            (phase, pending, seq![m])
        } else {
            (phase, pending.push(m), Seq::empty())
        },
    }
}

/// Cache and events once messages are decoded in order, up to the first
/// error.
pub open spec fn decode_all(m: CacheView, msgs: Seq<RouteMessage>) -> (
    CacheView,
    Result<Seq<NetEventView>, DecodeError>,
)
    decreases msgs.len(),
{
    if msgs.len() == 0 {
        (m, Ok(Seq::empty()))
    } else {
        let (m1, r1) = decode_all(m, msgs.drop_last());
        match r1 {
            Err(e) => (m1, Err(e)),
            Ok(evs) => {
                let (m2, r2) = decode(m1, msgs.last());
                match r2 {
                    Ok(more) => (m2, Ok(evs + more)),
                    Err(e) => (m2, Err(e)),
                }
            },
        }
    }
}

impl NetworkSource {
    pub open spec fn well_formed(&self) -> bool {
        self@.cache.well_formed()
    }

    /// A source that starts with the link dump.
    pub fn new(iface_cache: NetInterfaceCache) -> (r: NetworkSource)
        requires
            iface_cache.well_formed(),
        ensures
            r.well_formed(),
            r@.phase == Phase::DumpingLinks,
            r@.pending.len() == 0,
            r@.cache == iface_cache@,
    {
        NetworkSource { phase: Phase::DumpingLinks, pending: Vec::new(), iface_cache }
    }

    /// The cache that events' handles refer to.
    pub fn iface_cache(&self) -> (r: &NetInterfaceCache)
        ensures
            r@ == self@.cache,
    {
        &self.iface_cache
    }

    pub fn phase(&self) -> (r: Phase)
        ensures
            r == self@.phase,
    {
        self.phase
    }

    fn nl_linkmessage_decode(&mut self, msg: &LinkMessage) -> (r: (IfaceHandle, Option<String>))
        requires
            old(self).well_formed(),
        ensures
            final(self).well_formed(),
            final(self)@.phase == old(self)@.phase,
            final(self)@.pending == old(self)@.pending,
            (final(self)@.cache, r.0) == link_decode(old(self)@.cache, *msg),
            opt_string_view_of(r.1) == link_mac(*msg),
    {
        let mut iface_name: Option<String> = None;
        let mut address_bytes: Option<&Vec<u8>> = None;
        let mut i: usize = 0;
        while i < msg.attributes.len()
            invariant
                i <= msg.attributes@.len(),
                opt_string_view_of(iface_name) == last_name(msg.attributes@.subrange(0, i as int)),
                match address_bytes {
                    Some(b) => last_mac(msg.attributes@.subrange(0, i as int)) == Some(b@),
                    None => last_mac(msg.attributes@.subrange(0, i as int)) is None,
                },
            decreases msg.attributes@.len() - i,
        {
            let ghost next = msg.attributes@.subrange(0, i as int + 1);
            assert(next.drop_last() =~= msg.attributes@.subrange(0, i as int));
            match &msg.attributes[i] {
                LinkAttribute::IfName(name) => {
                    iface_name = Some(name.clone());
                },
                LinkAttribute::Address(addr) => {
                    address_bytes = Some(addr);
                },
                LinkAttribute::Other => {},
            }
            i = i + 1;
        }
        assert(msg.attributes@.subrange(0, i as int) =~= msg.attributes@);
        let mac_address = match address_bytes {
            Some(b) => Some(mac_address_string(b.as_slice())),
            None => None,
        };
        let candidate = match &iface_name {
            Some(n) => Some(n.clone()),
            None => None,
        };
        let h = self.iface_cache.lookup_or_create(msg.index, candidate);
        let ghost m1 = self.iface_cache@;
        match iface_name {
            Some(n) => {
                let renamed = !(self.iface_cache.get(h).name == n);
                if renamed {
                    self.iface_cache.rename(h, n);
                } else {
                    assert(m1.rename(h, n@).records =~= m1.records);
                }
            },
            None => {},
        }
        (h, mac_address)
    }

    fn nl_addressmessage_decode(&self, msg: &AddressMessage) -> (r: Result<
        Option<(IfaceHandle, IpAddress)>,
        DecodeError,
    >)
        requires
            self.well_formed(),
        ensures
            r == address_decode(self@.cache, *msg),
    {
        let expected: usize = if msg.family == AF_INET {
            4
        } else if msg.family == AF_INET6 {
            16
        } else {
            return Ok(None);
        };
        let iface = match self.iface_cache.lookup(msg.index) {
            Some(h) => h,
            None => {
                return Err(DecodeError::UnknownInterface(msg.index));
            },
        };
        let mut i: usize = 0;
        assert(msg.attributes@.subrange(0, msg.attributes@.len() as int) =~= msg.attributes@);
        while i < msg.attributes.len()
            invariant
                i <= msg.attributes@.len(),
                address_len(msg.family) == Some(expected as nat),
                self@.cache.live.contains_key(msg.index),
                iface == self@.cache.live[msg.index],
                first_address(msg.attributes@) == first_address(msg.attributes@.subrange(i as int, msg.attributes@.len() as int)),
            decreases msg.attributes@.len() - i,
        {
            let ghost rest = msg.attributes@.subrange(i as int, msg.attributes@.len() as int);
            assert(rest.drop_first() =~= msg.attributes@.subrange(i as int + 1, msg.attributes@.len() as int));
            if let AddressAttribute::Address(b) = &msg.attributes[i] {
                if b.len() != expected {
                    return Err(DecodeError::MalformedAddress { family: msg.family, len: b.len() });
                }
                assert(b@.len() == expected);
                let ip = if msg.family == AF_INET {
                    IpAddress::V4([b[0], b[1], b[2], b[3]])
                } else {
                    IpAddress::V6(
                        [
                            b[0],
                            b[1],
                            b[2],
                            b[3],
                            b[4],
                            b[5],
                            b[6],
                            b[7],
                            b[8],
                            b[9],
                            b[10],
                            b[11],
                            b[12],
                            b[13],
                            b[14],
                            b[15],
                        ],
                    )
                };
                return Ok(Some((iface, ip)));
            }
            i = i + 1;
        }
        Err(DecodeError::MissingAddress(msg.index))
    }

    /// Decodes one message into events, updating the cache. On an error the
    /// cache is left as it was.
    pub fn netevent_from_rtnetlink(&mut self, nl_msg: &RouteMessage) -> (r: Result<Vec<NetEvent>, DecodeError>)
        requires
            old(self).well_formed(),
        ensures
            final(self).well_formed(),
            final(self)@.phase == old(self)@.phase,
            final(self)@.pending == old(self)@.pending,
            (final(self)@.cache, result_view(r)) == decode(old(self)@.cache, *nl_msg),
    {
        let mut events: Vec<NetEvent> = Vec::new();
        match nl_msg {
            RouteMessage::NewLink(link_msg) => {
                let (iface, mac_address) = self.nl_linkmessage_decode(link_msg);
                events.push(NetEvent { iface, op: NetEventOp::AddIface });
                if let Some(mac_address) = mac_address {
                    events.push(NetEvent { iface, op: NetEventOp::AddMac(mac_address) });
                }
                assert(events_view(events@) =~= decode(old(self)@.cache, *nl_msg).1->Ok_0);
            },
            RouteMessage::DelLink(link_msg) => {
                let (iface, mac_address) = self.nl_linkmessage_decode(link_msg);
                if let Some(mac_address) = mac_address {
                    events.push(NetEvent { iface, op: NetEventOp::RmMac(mac_address) });
                }
                events.push(NetEvent { iface, op: NetEventOp::RmIface });
                self.iface_cache.remove(link_msg.index);
                assert(events_view(events@) =~= decode(old(self)@.cache, *nl_msg).1->Ok_0);
            },
            RouteMessage::NewAddress(address_msg) => {
                // An address on an interface that is down is reported as any other.
                match self.nl_addressmessage_decode(address_msg) {
                    Ok(Some((iface, address))) => {
                        events.push(NetEvent { iface, op: NetEventOp::AddIp(address) });
                        assert(events_view(events@) =~= decode(old(self)@.cache, *nl_msg).1->Ok_0);
                    },
                    Ok(None) => {
                        assert(events_view(events@) =~= Seq::<NetEventView>::empty());
                    },
                    Err(e) => {
                        return Err(e);
                    },
                }
            },
            RouteMessage::DelAddress(address_msg) => {
                match self.nl_addressmessage_decode(address_msg) {
                    Ok(Some((iface, address))) => {
                        events.push(NetEvent { iface, op: NetEventOp::RmIp(address) });
                        assert(events_view(events@) =~= decode(old(self)@.cache, *nl_msg).1->Ok_0);
                    },
                    Ok(None) => {
                        assert(events_view(events@) =~= Seq::<NetEventView>::empty());
                    },
                    Err(e) => {
                        return Err(e);
                    },
                }
            },
            RouteMessage::Other(kind) => {
                return Err(DecodeError::Unhandled(*kind));
            },
        }
        assert(result_view(Ok(events)) == decode(old(self)@.cache, *nl_msg).1);
        Ok(events)
    }
}

proof fn lemma_decode_all_stops_at_error(m: CacheView, msgs: Seq<RouteMessage>, k: int)
    requires
        0 <= k <= msgs.len(),
        decode_all(m, msgs.subrange(0, k)).1 is Err,
    ensures
        decode_all(m, msgs) == decode_all(m, msgs.subrange(0, k)),
    decreases msgs.len() - k,
{
    if k < msgs.len() {
        let next = msgs.subrange(0, k + 1);
        assert(next.drop_last() =~= msgs.subrange(0, k));
        lemma_decode_all_stops_at_error(m, msgs, k + 1);
    } else {
        assert(msgs.subrange(0, k) =~= msgs);
    }
}

impl NetworkSource {
    /// Takes one input: dump messages are decoded at once, live messages
    /// wait until the dumps are complete. Returns the events of what was
    /// decoded, or the first error.
    pub fn handle(&mut self, input: SourceInput) -> (r: Result<Vec<NetEvent>, DecodeError>)
        requires
            old(self).well_formed(),
        ensures
            final(self).well_formed(),
            ({
                let (phase, pending, now) = schedule(old(self)@.phase, old(self)@.pending, input);
                &&& final(self)@.phase == phase
                &&& final(self)@.pending == pending
                &&& (final(self)@.cache, result_view(r)) == decode_all(old(self)@.cache, now)
            }),
    {
        let ghost m0 = self@.cache;
        let ghost sched = schedule(self@.phase, self@.pending, input);
        let now: Vec<RouteMessage> = match input {
            SourceInput::DumpMessage(m) => vec![m],
            SourceInput::DumpDone => match self.phase {
                Phase::DumpingLinks => {
                    self.phase = Phase::DumpingAddresses;
                    Vec::new()
                },
                Phase::DumpingAddresses => {
                    self.phase = Phase::Live;
                    let mut taken: Vec<RouteMessage> = Vec::new();
                    std::mem::swap(&mut self.pending, &mut taken);
                    taken
                },
                Phase::Live => Vec::new(),
            },
            SourceInput::LiveMessage(m) => {
                if self.phase == Phase::Live {
                    vec![m]
                } else {
                    self.pending.push(m);
                    Vec::new()
                }
            },
        };
        assert(now@ =~= sched.2);
        assert(self@.pending =~= sched.1);
        let mut events: Vec<NetEvent> = Vec::new();
        let mut i: usize = 0;
        assert(now@.subrange(0, 0) =~= Seq::<RouteMessage>::empty());
        assert(events_view(events@) =~= Seq::<NetEventView>::empty());
        while i < now.len()
            invariant
                self.well_formed(),
                sched == schedule(old(self)@.phase, old(self)@.pending, input),
                m0 == old(self)@.cache,
                now@ == sched.2,
                self@.phase == sched.0,
                self@.pending == sched.1,
                i <= now@.len(),
                (self@.cache, Ok::<Seq<NetEventView>, DecodeError>(events_view(events@)))
                    == decode_all(m0, now@.subrange(0, i as int)),
            decreases now@.len() - i,
        {
            let ghost prefix = now@.subrange(0, i as int + 1);
            assert(prefix.drop_last() =~= now@.subrange(0, i as int));
            let ghost before = events_view(events@);
            let res = self.netevent_from_rtnetlink(&now[i]);
            match res {
                Ok(more) => {
                    let mut more = more;
                    let ghost added = events_view(more@);
                    events.append(&mut more);
                    assert(events_view(events@) =~= before + added);
                },
                Err(e) => {
                    proof {
                        assert(prefix.last() == now@[i as int]);
                        assert(decode_all(m0, prefix) == (self@.cache, Err::<Seq<NetEventView>, DecodeError>(e)));
                        lemma_decode_all_stops_at_error(m0, now@, i + 1);
                    }
                    return Err(e);
                },
            }
            i = i + 1;
        }
        assert(now@.subrange(0, i as int) =~= now@);
        Ok(events)
    }
}

/// Number of completed dumps in a run of inputs.
pub open spec fn dumps_done(inputs: Seq<SourceInput>) -> nat
    decreases inputs.len(),
{
    if inputs.len() == 0 {
        0
    } else {
        dumps_done(inputs.drop_last()) + if inputs.last() is DumpDone {
            1nat
        } else {
            0nat
        }
    }
}

/// The dump messages of a run of inputs, in order.
pub open spec fn dump_messages(inputs: Seq<SourceInput>) -> Seq<RouteMessage>
    decreases inputs.len(),
{
    if inputs.len() == 0 {
        Seq::empty()
    } else {
        match inputs.last() {
            SourceInput::DumpMessage(m) => dump_messages(inputs.drop_last()).push(m),
            _ => dump_messages(inputs.drop_last()),
        }
    }
}

/// The live messages of a run of inputs, in order of arrival.
pub open spec fn live_messages(inputs: Seq<SourceInput>) -> Seq<RouteMessage>
    decreases inputs.len(),
{
    if inputs.len() == 0 {
        Seq::empty()
    } else {
        match inputs.last() {
            SourceInput::LiveMessage(m) => live_messages(inputs.drop_last()).push(m),
            _ => live_messages(inputs.drop_last()),
        }
    }
}

/// Phase, held-back messages, and every message handed to the decoder so
/// far, once a new source has taken `inputs`.
pub open spec fn run(inputs: Seq<SourceInput>) -> (Phase, Seq<RouteMessage>, Seq<RouteMessage>)
    decreases inputs.len(),
{
    if inputs.len() == 0 {
        (Phase::DumpingLinks, Seq::empty(), Seq::empty())
    } else {
        let (phase, pending, decoded) = run(inputs.drop_last());
        let (phase2, pending2, now) = schedule(phase, pending, inputs.last());
        (phase2, pending2, decoded + now)
    }
}

pub open spec fn phase_after(dumps: nat) -> Phase {
    if dumps == 0 {
        Phase::DumpingLinks
    } else if dumps == 1 {
        Phase::DumpingAddresses
    } else {
        Phase::Live
    }
}

/// The full dump is decoded before any live message. Whenever dump
/// responses end before the dump is complete, the decoder is handed every
/// dump message, in order, before any live message; live messages that
/// arrive meanwhile are held back, and then handed over in their order of
/// arrival.
pub proof fn lemma_dump_before_live(inputs: Seq<SourceInput>)
    requires
        forall|k: int|
            0 <= k < inputs.len() && #[trigger] inputs[k] is DumpMessage ==> dumps_done(
                inputs.subrange(0, k),
            ) < 2,
    ensures
        ({
            let (phase, pending, decoded) = run(inputs);
            &&& phase == phase_after(dumps_done(inputs))
            &&& phase != Phase::Live ==> decoded == dump_messages(inputs) && pending
                == live_messages(inputs)
            &&& phase == Phase::Live ==> decoded == dump_messages(inputs) + live_messages(inputs)
                && pending.len() == 0
        }),
    decreases inputs.len(),
{
    if inputs.len() > 0 {
        let prev = inputs.drop_last();
        assert forall|k: int|
            0 <= k < prev.len() && #[trigger] prev[k] is DumpMessage implies dumps_done(
            prev.subrange(0, k),
        ) < 2 by {
            assert(prev.subrange(0, k) =~= inputs.subrange(0, k));
            assert(inputs[k] == prev[k]);
        }
        lemma_dump_before_live(prev);
        let (phase, pending, decoded) = run(prev);
        match inputs.last() {
            SourceInput::DumpMessage(m) => {
                let k = inputs.len() - 1;
                assert(inputs.subrange(0, k) =~= prev);
                assert(inputs[k] is DumpMessage);
            },
            SourceInput::DumpDone => {
                assert(decoded + Seq::<RouteMessage>::empty() =~= decoded);
            },
            SourceInput::LiveMessage(m) => {
                assert(decoded + Seq::<RouteMessage>::empty() =~= decoded);
                if phase == Phase::Live {
                    assert(decoded + seq![m] =~= dump_messages(prev) + live_messages(prev).push(m));
                }
            },
        }
    }
}

/// An event captured before a rename sees the new name: when a new-link
/// message names an already known interface anew, the record behind the
/// handle that earlier events hold takes the new name.
pub proof fn lemma_rename_visible(m: CacheView, msg: LinkMessage, name: Seq<char>)
    requires
        m.well_formed(),
        m.live.contains_key(msg.index),
        last_name(msg.attributes@) == Some(name),
    ensures
        ({
            let h = m.live[msg.index];
            let (m1, r) = decode(m, RouteMessage::NewLink(msg));
            &&& m1.valid_handle(h)
            &&& m1.records[h as int].name == name
            &&& r is Ok
            &&& r->Ok_0[0].iface == h
        }),
{
}

/// An address message never creates an interface: for a family that is
/// handled and an index that the cache does not hold, decoding fails and
/// the cache stays as it was.
pub proof fn lemma_address_needs_link(m: CacheView, msg: AddressMessage, delete: bool)
    requires
        address_len(msg.family) is Some,
        !m.live.contains_key(msg.index),
    ensures
        ({
            let wire = if delete {
                RouteMessage::DelAddress(msg)
            } else {
                RouteMessage::NewAddress(msg)
            };
            decode(m, wire) == (m, Err::<Seq<NetEventView>, DecodeError>(
                DecodeError::UnknownInterface(msg.index),
            ))
        }),
{
}

} // verus!
