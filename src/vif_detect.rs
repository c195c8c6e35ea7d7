use vstd::prelude::*;
use crate::datastructs::ToolstackNetInterface;
use crate::text::{has_prefix, same_text, starts_with, trim, trimmed};

verus! {

/// Name prefix of the Xen netfront interfaces on BSD systems.
pub open spec fn vif_prefix() -> Seq<char> {
    seq!['x', 'n']
}

pub open spec fn is_digit(c: char) -> bool {
    '0' <= c && c <= '9'
}

pub open spec fn digit_value(c: char) -> nat {
    (c as nat - '0' as nat) as nat
}

/// Value of a string of decimal digits, most significant first.
pub open spec fn decimal_value(s: Seq<char>) -> nat
    decreases s.len(),
{
    if s.len() == 0 {
        0
    } else {
        decimal_value(s.drop_last()) * 10 + digit_value(s.last())
    }
}

pub open spec fn all_digits(s: Seq<char>) -> bool {
    forall|i: int| 0 <= i < s.len() ==> is_digit(#[trigger] s[i])
}

/// The digits of a `u32` literal: an optional leading `+` is skipped when
/// something follows it.
pub open spec fn unsigned_digits(s: Seq<char>) -> Seq<char> {
    if s.len() > 1 && s[0] == '+' {
        s.drop_first()
    } else {
        s
    }
}

/// What parsing `s` as a decimal `u32` gives: the value of a non-empty
/// string of digits (after an optional `+`) that fits in 32 bits.
pub open spec fn parse_u32_spec(s: Seq<char>) -> Option<u32> {
    let d = unsigned_digits(s);
    if d.len() > 0 && all_digits(d) && decimal_value(d) <= u32::MAX {
        Some(decimal_value(d) as u32)
    } else {
        None
    }
}

pub proof fn lemma_decimal_value_prefix_le(s: Seq<char>, k: int)
    requires
        0 <= k <= s.len(),
    ensures
        decimal_value(s.subrange(0, k)) <= decimal_value(s),
    decreases s.len() - k,
{
    if k < s.len() {
        lemma_decimal_value_prefix_le(s, k + 1);
        let p = s.subrange(0, k + 1);
        assert(p.drop_last() =~= s.subrange(0, k));
    } else {
        assert(s.subrange(0, k) =~= s);
    }
}

/// Parses a decimal unsigned 32-bit integer, as `str::parse::<u32>` does.
pub fn parse_u32(s: &str) -> (r: Option<u32>)
    ensures
        r == parse_u32_spec(s@),
{
    let n = s.unicode_len();
    let mut i: usize = 0;
    if n > 1 && s.get_char(0) == '+' {
        i = 1;
    }
    let start = i;
    let ghost d = unsigned_digits(s@);
    assert(d =~= s@.subrange(start as int, n as int));
    if i >= n {
        return None;
    }
    let mut acc: u32 = 0;
    while i < n
        invariant
            n == s@.len(),
            start <= i <= n,
            d =~= s@.subrange(start as int, n as int),
            d == unsigned_digits(s@),
            all_digits(s@.subrange(start as int, i as int)),
            acc as nat == decimal_value(s@.subrange(start as int, i as int)),
        decreases n - i,
    {
        let c = s.get_char(i);
        let ghost prefix = s@.subrange(start as int, i as int);
        let ghost next = s@.subrange(start as int, i as int + 1);
        assert(next.drop_last() =~= prefix);
        if c < '0' || c > '9' {
            assert(d[i - start] == c);
            assert(!is_digit(d[i - start]));
            assert(!all_digits(d));
            return None;
        }
        let v: u32 = (c as u32) - ('0' as u32);
        assert(decimal_value(next) == acc * 10 + v);
        if acc > (u32::MAX - v) / 10 {
            proof {
                assert(acc * 10 + v > u32::MAX) by (nonlinear_arith)
                    requires
                        acc > (u32::MAX - v) / 10,
                        v <= 9,
                ;
                assert(next =~= d.subrange(0, i - start + 1));
                lemma_decimal_value_prefix_le(d, i - start + 1);
                if all_digits(d) {
                    assert(decimal_value(d) > u32::MAX);
                }
            }
            return None;
        }
        acc = acc * 10 + v;
        assert(all_digits(next)) by {
            assert forall|j: int| 0 <= j < next.len() implies is_digit(#[trigger] next[j]) by {
                if j < prefix.len() {
                    assert(next[j] == prefix[j]);
                }
            }
        }
        i = i + 1;
    }
    Some(acc)
}

/// The association of a BSD interface name: `xn<id>` is the VIF `id`.
pub open spec fn toolstack_of_name(name: Seq<char>) -> ToolstackNetInterface {
    let p = vif_prefix();
    if name.len() >= p.len() && name.subrange(0, p.len() as int) == p {
        match parse_u32_spec(name.subrange(p.len() as int, name.len() as int)) {
            Some(id) => ToolstackNetInterface::Vif(id),
            None => ToolstackNetInterface::Absent,
        }
    } else {
        ToolstackNetInterface::Absent
    }
}

/// Identifies a VIF from its interface name, named "xn<id>".
pub fn get_toolstack_interface(iface_name: &str) -> (r: ToolstackNetInterface)
    ensures
        r == toolstack_of_name(iface_name@),
{
    let n = iface_name.unicode_len();
    if n < 2 || iface_name.get_char(0) != 'x' || iface_name.get_char(1) != 'n' {
        proof {
            if n >= 2 {
                let pre = iface_name@.subrange(0, 2);
                if pre == vif_prefix() {
                    assert(pre[0] == 'x' && pre[1] == 'n');
                }
            }
        }
        return ToolstackNetInterface::Absent;
    }
    assert(iface_name@.subrange(0, 2) =~= vif_prefix());
    let rest = iface_name.substring_char(2, n);
    match parse_u32(rest) {
        Some(id) => ToolstackNetInterface::Vif(id),
        None => ToolstackNetInterface::Absent,
    }
}

pub open spec fn vif_devtype() -> Seq<char> {
    seq!['v', 'i', 'f']
}

/// Xenstore node prefix under which a VIF's frontend lives.
pub open spec fn vif_node_prefix() -> Seq<char> {
    seq!['d', 'e', 'v', 'i', 'c', 'e', '/', 'v', 'i', 'f', '/']
}

/// The association that a device's sysfs entries give, once stripped of
/// surrounding whitespace: a `vif` device whose node is `device/vif/<id>`
/// is the VIF `id`. A missing entry, or one that does not read so, gives no
/// association.
pub open spec fn toolstack_of_sysfs(devtype: Option<Seq<char>>, nodename: Option<Seq<char>>) -> ToolstackNetInterface {
    match (devtype, nodename) {
        (Some(d), Some(n)) => if d == vif_devtype() && has_prefix(n, vif_node_prefix()) {
            match parse_u32_spec(n.subrange(vif_node_prefix().len() as int, n.len() as int)) {
                Some(id) => ToolstackNetInterface::Vif(id),
                None => ToolstackNetInterface::Absent,
            }
        } else {
            ToolstackNetInterface::Absent
        },
        _ => ToolstackNetInterface::Absent,
    }
}

pub open spec fn opt_str_view(s: Option<&str>) -> Option<Seq<char>> {
    match s {
        Some(t) => Some(t@),
        None => None,
    }
}

pub open spec fn opt_trimmed(s: Option<&str>) -> Option<Seq<char>> {
    match s {
        Some(t) => Some(trimmed(t@)),
        None => None,
    }
}

/// The association that trimmed sysfs entries `devtype` and `nodename` of
/// a device give, where they could be read.
pub fn toolstack_from_sysfs_entries(devtype: Option<&str>, nodename: Option<&str>) -> (r: ToolstackNetInterface)
    ensures
        r == toolstack_of_sysfs(opt_str_view(devtype), opt_str_view(nodename)),
{
    let (d, n) = match (devtype, nodename) {
        (Some(d), Some(n)) => (d, n),
        _ => {
            return ToolstackNetInterface::Absent;
        },
    };
    let vif = "vif";
    let prefix = "device/vif/";
    proof {
        reveal_strlit("vif");
        reveal_strlit("device/vif/");
    }
    assert(vif@ =~= vif_devtype());
    assert(prefix@ =~= vif_node_prefix());
    if !same_text(d, vif) || !starts_with(n, prefix) {
        return ToolstackNetInterface::Absent;
    }
    let rest = n.substring_char(11, n.unicode_len());
    match parse_u32(rest) {
        Some(id) => ToolstackNetInterface::Vif(id),
        None => ToolstackNetInterface::Absent,
    }
}

/// The association of a device from its sysfs `devtype` and `nodename`
/// entries as read, where they could be read.
pub fn toolstack_from_sysfs(devtype: Option<&str>, nodename: Option<&str>) -> (r: ToolstackNetInterface)
    ensures
        r == toolstack_of_sysfs(opt_trimmed(devtype), opt_trimmed(nodename)),
{
    let d = match devtype {
        Some(t) => Some(trim(t)),
        None => None,
    };
    let n = match nodename {
        Some(t) => Some(trim(t)),
        None => None,
    };
    toolstack_from_sysfs_entries(d, n)
}

} // verus!
