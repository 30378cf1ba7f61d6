//! Local network interfaces: the address range a netmask spans, and the
//! preference order that picks a default network to scan.

use vstd::prelude::*;
use crate::range::{check_group, format_ip, group_val_capped, ip_str_spec, render_octet};
use crate::strutil::{
    chars_string, dec_str, dec_val, split_chars, split_on, starts_with_spec, str_chars,
    str_starts_with,
};

verus! {

/// One local interface and the scan range its netmask spans.
#[derive(Debug)]
pub struct NetworkInterface {
    pub name: String,
    pub ip: String,
    pub start_ip: String,
    pub end_ip: String,
    pub cidr: String,
}

impl Clone for NetworkInterface {
    /// An exact copy.
    fn clone(&self) -> (r: NetworkInterface)
        ensures
            r == *self,
    {
        NetworkInterface {
            name: self.name.clone(),
            ip: self.ip.clone(),
            start_ip: self.start_ip.clone(),
            end_ip: self.end_ip.clone(),
            cidr: self.cidr.clone(),
        }
    }
}

impl NetworkInterface {
    /// The one-line description shown for an interface.
    pub fn describe(&self) -> (r: String)
        ensures
            r@ == self.name@ + " - "@ + self.ip@ + " ("@ + self.cidr@ + ")"@,
    {
        let mut r = self.name.clone();
        r.append(" - ");
        r.append(self.ip.as_str());
        r.append(" (");
        r.append(self.cidr.as_str());
        r.append(")");
        r
    }
}

/// How many of the lowest `k` bits of `m` are set.
pub open spec fn ones_upto(m: u32, k: int) -> int
    decreases k,
    when k >= 0
{
    if k <= 0 {
        0
    } else {
        ones_upto(m, k - 1) + ((m >> ((k - 1) as u32)) & 1)
    }
}

/// Count the set bits of a netmask.
pub fn popcount(m: u32) -> (r: u32)
    ensures
        r == ones_upto(m, 32),
        r <= 32,
{
    let mut cnt: u32 = 0;
    let mut i: u32 = 0;
    while i < 32
        invariant
            i <= 32,
            cnt == ones_upto(m, i as int),
            cnt <= i,
        decreases 32 - i,
    {
        assert((m >> i) & 1 <= 1) by (bit_vector);
        let b = (m >> i) & 1;
        cnt = cnt + b;
        i += 1;
    }
    cnt
}

/// The textual scan range an interface's address and netmask span: the
/// first and last usable addresses (network address and broadcast excluded)
/// and the CIDR description of the network.
pub fn calculate_network_range(ip: u32, mask: u32) -> (r: (String, String, String))
    requires
        (ip & mask) < 0xFFFFFFFFu32,
        ((ip & mask) | !mask) > 0,
    ensures
        r.0@ == ip_str_spec(((ip & mask) + 1) as u32),
        r.1@ == ip_str_spec((((ip & mask) | !mask) - 1) as u32),
        r.2@ == ip_str_spec(ip & mask) + seq!['/'] + dec_str(ones_upto(mask, 32) as nat),
{
    let network = ip & mask;
    let broadcast = network | !mask;
    let start_s = format_ip(network + 1);
    let end_s = format_ip(broadcast - 1);
    let net_s = format_ip(network);
    let mut v = str_chars(net_s.as_str());
    v.push('/');
    let cnt = popcount(mask);
    let mut digits = render_octet(cnt as u8);
    v.append(&mut digits);
    assert(v@ =~= ip_str_spec(ip & mask) + seq!['/'] + dec_str(ones_upto(mask, 32) as nat));
    (start_s, end_s, chars_string(&v))
}

/// A home-network address.
pub open spec fn is_192(ip: Seq<char>) -> bool {
    starts_with_spec(ip, "192.168."@)
}

/// A ten-dot private address.
pub open spec fn is_10(ip: Seq<char>) -> bool {
    starts_with_spec(ip, "10."@)
}

/// A 172.16.0.0/12 private address: the second octet group reads as a
/// number between 16 and 31.
pub open spec fn is_172_private(ip: Seq<char>) -> bool {
    starts_with_spec(ip, "172."@) && split_on(ip, '.').len() >= 2 && {
        let g = split_on(ip, '.')[1];
        g.len() >= 1 && crate::strutil::all_digits(g) && 16 <= dec_val(g) && dec_val(g) <= 31
    }
}

/// Does this address fall in the 172.16.0.0/12 private block?
fn is_172_private_exec(ip: &String) -> (r: bool)
    ensures
        r == is_172_private(ip@),
{
    if !str_starts_with(ip.as_str(), "172.") {
        return false;
    }
    let ipv = str_chars(ip.as_str());
    let gs = split_chars(&ipv, '.');
    proof {
        assert(gs.deep_view().len() == gs@.len());
    }
    if gs.len() < 2 {
        return false;
    }
    proof {
        assert(gs@[1].deep_view() =~= gs@[1]@);
        assert(gs@[1]@ == split_on(ip@, '.')[1]);
    }
    if !check_group(&gs[1]) {
        return false;
    }
    let v = group_val_capped(&gs[1]);
    16 <= v && v <= 31
}

/// Is there an address of this class among the interfaces?
pub open spec fn ex_where(ns: Seq<NetworkInterface>, p: spec_fn(Seq<char>) -> bool) -> bool {
    exists|i: int| 0 <= i < ns.len() && p(ns[i].ip@)
}

/// The first interface whose address is of this class.
pub open spec fn first_where(ns: Seq<NetworkInterface>, p: spec_fn(Seq<char>) -> bool) -> int {
    choose|i: int|
        0 <= i < ns.len() && p(ns[i].ip@) && (forall|j: int| 0 <= j < i ==> !p(ns[j].ip@))
}

/// An index found by a front-to-back scan is the chosen first index.
proof fn lemma_first_where_is(ns: Seq<NetworkInterface>, p: spec_fn(Seq<char>) -> bool, i: int)
    requires
        0 <= i < ns.len(),
        p(ns[i].ip@),
        forall|j: int| 0 <= j < i ==> !p(ns[j].ip@),
    ensures
        first_where(ns, p) == i,
{
    let c = first_where(ns, p);
    assert(0 <= c < ns.len() && p(ns[c].ip@) && (forall|j: int| 0 <= j < c ==> !p(ns[j].ip@)));
}

/// Which interface a scan should default to: the first home-network
/// address, else the first ten-dot address, else the first 172.16/12
/// address, else the first interface of all, if any.
pub open spec fn chosen_network(ns: Seq<NetworkInterface>) -> Option<NetworkInterface> {
    if ex_where(ns, |s: Seq<char>| is_192(s)) {
        Some(ns[first_where(ns, |s: Seq<char>| is_192(s))])
    } else if ex_where(ns, |s: Seq<char>| is_10(s)) {
        Some(ns[first_where(ns, |s: Seq<char>| is_10(s))])
    } else if ex_where(ns, |s: Seq<char>| is_172_private(s)) {
        Some(ns[first_where(ns, |s: Seq<char>| is_172_private(s))])
    } else if ns.len() > 0 {
        Some(ns[0])
    } else {
        None
    }
}

/// Pick the network a scan defaults to, in preference order.
pub fn get_default_network(networks: &Vec<NetworkInterface>) -> (r: Option<NetworkInterface>)
    ensures
        r == chosen_network(networks@),
{
    let n = networks.len();
    let mut i: usize = 0;
    while i < n
        invariant
            n == networks@.len(),
            i <= n,
            forall|j: int| 0 <= j < i ==> !is_192((#[trigger] networks@[j]).ip@),
        decreases n - i,
    {
        if str_starts_with(networks[i].ip.as_str(), "192.168.") {
            proof {
                lemma_first_where_is(networks@, |s: Seq<char>| is_192(s), i as int);
            }
            return Some(networks[i].clone());
        }
        i += 1;
    }
    assert(!ex_where(networks@, |s: Seq<char>| is_192(s)));
    let mut i2: usize = 0;
    while i2 < n
        invariant
            n == networks@.len(),
            i2 <= n,
            !ex_where(networks@, |s: Seq<char>| is_192(s)),
            forall|j: int| 0 <= j < i2 ==> !is_10((#[trigger] networks@[j]).ip@),
        decreases n - i2,
    {
        if str_starts_with(networks[i2].ip.as_str(), "10.") {
            proof {
                lemma_first_where_is(networks@, |s: Seq<char>| is_10(s), i2 as int);
            }
            return Some(networks[i2].clone());
        }
        i2 += 1;
    }
    assert(!ex_where(networks@, |s: Seq<char>| is_10(s)));
    let mut i3: usize = 0;
    while i3 < n
        invariant
            n == networks@.len(),
            i3 <= n,
            !ex_where(networks@, |s: Seq<char>| is_192(s)),
            !ex_where(networks@, |s: Seq<char>| is_10(s)),
            forall|j: int| 0 <= j < i3 ==> !is_172_private((#[trigger] networks@[j]).ip@),
        decreases n - i3,
    {
        if is_172_private_exec(&networks[i3].ip) {
            proof {
                lemma_first_where_is(networks@, |s: Seq<char>| is_172_private(s), i3 as int);
            }
            return Some(networks[i3].clone());
        }
        i3 += 1;
    }
    assert(!ex_where(networks@, |s: Seq<char>| is_172_private(s)));
    if networks.len() > 0 {
        return Some(networks[0].clone());
    }
    None
}

} // verus!
