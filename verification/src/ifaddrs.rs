//! The interface list: the address records the system reports (one per
//! address family per interface) gathered into one interface per name.
use vstd::prelude::*;
use crate::network::{
    BridgeMember, IFF_LOOPBACK, IFF_UP, IpConfig, NetworkInterface, flags_to_strings,
    iface_flags_spec, ipv4_mask_to_prefix, ipv4_prefix_spec,
};
use crate::sysctl::opt_view;
use crate::text::{
    join, join_strings, lines, owned, push_str, sort_strings, sorted_strs, split_lines, str_eq, str_lt,
    string_eq, trim, trim_str, utf8_lossy, utf8_lossy_of,
};
use crate::num::{dec, push_dec};
use crate::network::{decode_vlan_proto, vlan_proto_spec};

verus! {

/// Link-layer statistics of an interface.
#[derive(Debug, Clone)]
pub struct LinkData {
    pub mtu: u32,
    pub metric: u32,
    pub baudrate: u64,
    pub link_state: u8,
}

/// What one record carries.
#[derive(Debug, Clone)]
pub enum AddrRecord {
    /// An IPv4 address, with its netmask and broadcast address if given.
    Inet { address: String, netmask: Option<String>, broadcast: Option<String> },
    /// An IPv6 address, with its prefix length if a mask was given.
    Inet6 { address: String, prefix_len: Option<u8> },
    /// The link layer: the hardware address (taken when `set_mac`, that is
    /// when the record has one) and the link statistics if present.
    Link { set_mac: bool, mac: Option<String>, data: Option<LinkData> },
    /// No address, or a family that is not read.
    Other,
}

/// One record of the system's address list.
#[derive(Debug, Clone)]
pub struct IfAddrRecord {
    pub name: String,
    pub flags: i32,
    pub is_physical: bool,
    pub kind: AddrRecord,
}

pub struct IpView {
    pub address: Seq<char>,
    pub netmask: Option<Seq<char>>,
    pub prefix_len: Option<u8>,
    pub broadcast: Option<Seq<char>>,
    pub is_alias: bool,
}

pub open spec fn ip_view(a: IpConfig) -> IpView {
    IpView {
        address: a.address@,
        netmask: opt_view(a.netmask),
        prefix_len: a.prefix_len,
        broadcast: opt_view(a.broadcast),
        is_alias: a.is_alias,
    }
}

/// An interface as gathered from its records (the fields the records set).
pub struct IfaceView {
    pub name: Seq<char>,
    pub flags: Seq<Seq<char>>,
    pub is_up: bool,
    pub is_loopback: bool,
    pub is_physical: bool,
    pub mtu: u32,
    pub metric: u32,
    pub mac: Option<Seq<char>>,
    pub link_state: Seq<char>,
    pub baudrate: u64,
    pub ipv4: Seq<IpView>,
    pub ipv6: Seq<IpView>,
    pub description: Option<Seq<char>>,
    pub status: Option<Seq<char>>,
    pub groups: Seq<Seq<char>>,
    pub members: Seq<(Seq<char>, Seq<char>)>,
    pub driver_name: Option<Seq<char>>,
}

pub open spec fn iface_view(i: NetworkInterface) -> IfaceView {
    IfaceView {
        name: i.name@,
        flags: i.flags.deep_view(),
        is_up: i.is_up,
        is_loopback: i.is_loopback,
        is_physical: i.is_physical,
        mtu: i.mtu,
        metric: i.metric,
        mac: opt_view(i.mac),
        link_state: i.link_state@,
        baudrate: i.baudrate,
        ipv4: i.ipv4@.map_values(|a: IpConfig| ip_view(a)),
        ipv6: i.ipv6@.map_values(|a: IpConfig| ip_view(a)),
        description: opt_view(i.description),
        status: opt_view(i.status),
        groups: i.groups.deep_view(),
        members: i.members@.map_values(|m: BridgeMember| (m.name@, m.info@)),
        driver_name: opt_view(i.driver_name),
    }
}

/// The interface as its first record starts it: flags, up and loopback
/// from that record; link state unknown; no address, description, status,
/// group, member or driver name yet.
pub open spec fn new_iface(r: IfAddrRecord) -> IfaceView {
    IfaceView {
        name: r.name@,
        flags: iface_flags_spec(r.flags),
        is_up: r.flags & IFF_UP != 0,
        is_loopback: r.flags & IFF_LOOPBACK != 0,
        is_physical: r.is_physical,
        mtu: 0,
        metric: 0,
        mac: None,
        link_state: "unknown"@,
        baudrate: 0,
        ipv4: seq![],
        ipv6: seq![],
        description: None,
        status: None,
        groups: seq![],
        members: seq![],
        driver_name: None,
    }
}

pub open spec fn link_state_name(s: u8) -> Seq<char> {
    if s == 1 {
        "down"@
    } else if s == 2 {
        "up"@
    } else {
        "unknown"@
    }
}

/// One more record of the interface: an address is added (an alias when
/// the interface already has one of that family); a link record sets the
/// hardware address and the link statistics.
pub open spec fn apply_record(v: IfaceView, r: IfAddrRecord) -> IfaceView {
    match r.kind {
        AddrRecord::Inet { address, netmask, broadcast } => IfaceView {
            ipv4: v.ipv4.push(
                IpView {
                    address: address@,
                    netmask: opt_view(netmask),
                    prefix_len: match netmask {
                        Some(m) => Some(ipv4_prefix_spec(m@) as u8),
                        None => None,
                    },
                    broadcast: opt_view(broadcast),
                    is_alias: v.ipv4.len() > 0,
                },
            ),
            ..v
        },
        AddrRecord::Inet6 { address, prefix_len } => IfaceView {
            ipv6: v.ipv6.push(
                IpView {
                    address: address@,
                    netmask: None,
                    prefix_len,
                    broadcast: None,
                    is_alias: v.ipv6.len() > 0,
                },
            ),
            ..v
        },
        AddrRecord::Link { set_mac, mac, data } => {
            let v2 = if set_mac {
                IfaceView { mac: opt_view(mac), ..v }
            } else {
                v
            };
            match data {
                Some(d) => IfaceView {
                    mtu: d.mtu,
                    metric: d.metric,
                    baudrate: d.baudrate,
                    link_state: link_state_name(d.link_state),
                    ..v2
                },
                None => v2,
            }
        },
        AddrRecord::Other => v,
    }
}

/// The interface named `name` gathered from the records in order; none
/// when no record names it.
pub open spec fn iface_fold(recs: Seq<IfAddrRecord>, name: Seq<char>) -> Option<IfaceView>
    decreases recs.len(),
{
    if recs.len() == 0 {
        None
    } else {
        let prev = iface_fold(recs.drop_last(), name);
        let r = recs.last();
        if r.name@ != name {
            prev
        } else {
            let base = match prev {
                Some(v) => v,
                None => new_iface(r),
            };
            Some(apply_record(base, r))
        }
    }
}

pub open spec fn names_rec(recs: Seq<IfAddrRecord>, n: Seq<char>) -> bool {
    exists|k: int| 0 <= k < recs.len() && #[trigger] recs[k].name@ == n
}

proof fn lemma_fold_some(recs: Seq<IfAddrRecord>, n: Seq<char>)
    ensures
        iface_fold(recs, n) is Some <==> names_rec(recs, n),
        iface_fold(recs, n) matches Some(v) ==> v.name == n,
    decreases recs.len(),
{
    if recs.len() > 0 {
        let d = recs.drop_last();
        lemma_fold_some(d, n);
        if names_rec(d, n) {
            let k = choose|k: int| 0 <= k < d.len() && #[trigger] d[k].name@ == n;
            assert(recs[k] == d[k]);
        }
        if names_rec(recs, n) && recs.last().name@ != n {
            let k = choose|k: int| 0 <= k < recs.len() && #[trigger] recs[k].name@ == n;
            assert(k < d.len());
            assert(d[k] == recs[k]);
        }
        if recs.last().name@ == n {
            assert(recs[recs.len() - 1].name@ == n);
        }
    }
}

fn clone_opt(o: &Option<String>) -> (r: Option<String>)
    ensures
        opt_view(r) == opt_view(*o),
{
    match o {
        Some(s) => Some(s.clone()),
        None => None,
    }
}

fn new_iface_exec(r: &IfAddrRecord) -> (i: NetworkInterface)
    ensures
        iface_view(i) == new_iface(*r),
{
    let ipv4: Vec<IpConfig> = Vec::new();
    let ipv6: Vec<IpConfig> = Vec::new();
    let members: Vec<BridgeMember> = Vec::new();
    let i = NetworkInterface {
        name: r.name.clone(),
        description: None,
        status: None,
        flags: flags_to_strings(r.flags),
        is_up: r.flags & IFF_UP != 0,
        is_loopback: r.flags & IFF_LOOPBACK != 0,
        is_physical: r.is_physical,
        mtu: 0,
        metric: 0,
        mac: None,
        link_state: owned("unknown"),
        baudrate: 0,
        groups: Vec::new(),
        members,
        ipv4,
        ipv6,
        driver_name: None,
    };
    assert(iface_view(i).ipv4 =~= Seq::<IpView>::empty());
    assert(iface_view(i).ipv6 =~= Seq::<IpView>::empty());
    assert(iface_view(i).groups =~= Seq::<Seq<char>>::empty());
    assert(iface_view(i).members =~= Seq::<(Seq<char>, Seq<char>)>::empty());
    i
}

fn link_state_exec(s: u8) -> (r: String)
    ensures
        r@ == link_state_name(s),
{
    if s == 1 {
        owned("down")
    } else if s == 2 {
        owned("up")
    } else {
        owned("unknown")
    }
}

fn apply_record_exec(i: &mut NetworkInterface, r: &IfAddrRecord)
    ensures
        iface_view(*final(i)) == apply_record(iface_view(*old(i)), *r),
{
    let ghost v = iface_view(*i);
    match &r.kind {
        AddrRecord::Inet { address, netmask, broadcast } => {
            let alias = i.ipv4.len() > 0;
            let prefix = match netmask {
                Some(m) => Some(ipv4_mask_to_prefix(m.as_str())),
                None => None,
            };
            let a = IpConfig {
                address: address.clone(),
                netmask: clone_opt(netmask),
                prefix_len: prefix,
                broadcast: clone_opt(broadcast),
                is_alias: alias,
            };
            let ghost before = i.ipv4@;
            i.ipv4.push(a);
            assert(i.ipv4@.map_values(|x: IpConfig| ip_view(x)) =~= before.map_values(
                |x: IpConfig| ip_view(x),
            ).push(ip_view(a)));
        },
        AddrRecord::Inet6 { address, prefix_len } => {
            let alias = i.ipv6.len() > 0;
            let a = IpConfig {
                address: address.clone(),
                netmask: None,
                prefix_len: *prefix_len,
                broadcast: None,
                is_alias: alias,
            };
            let ghost before = i.ipv6@;
            i.ipv6.push(a);
            assert(i.ipv6@.map_values(|x: IpConfig| ip_view(x)) =~= before.map_values(
                |x: IpConfig| ip_view(x),
            ).push(ip_view(a)));
        },
        AddrRecord::Link { set_mac, mac, data } => {
            if *set_mac {
                i.mac = clone_opt(mac);
            }
            match data {
                Some(d) => {
                    i.mtu = d.mtu;
                    i.metric = d.metric;
                    i.baudrate = d.baudrate;
                    i.link_state = link_state_exec(d.link_state);
                },
                None => {},
            }
        },
        AddrRecord::Other => {},
    }
}

/// The interface named `name`, gathered from the records.
fn gather(recs: &Vec<IfAddrRecord>, name: &String) -> (r: Option<NetworkInterface>)
    ensures
        match r {
            Some(i) => iface_fold(recs@, name@) == Some(iface_view(i)),
            None => iface_fold(recs@, name@) is None,
        },
{
    let mut cur: Option<NetworkInterface> = None;
    let mut k: usize = 0;
    assert(recs@.take(0) =~= Seq::<IfAddrRecord>::empty());
    while k < recs.len()
        invariant
            k <= recs@.len(),
            match cur {
                Some(i) => iface_fold(recs@.take(k as int), name@) == Some(iface_view(i)),
                None => iface_fold(recs@.take(k as int), name@) is None,
            },
        decreases recs@.len() - k,
    {
        let r = &recs[k];
        assert(recs@.take(k + 1).drop_last() =~= recs@.take(k as int));
        assert(recs@.take(k + 1).last() == recs@[k as int]);
        if string_eq(&r.name, name) {
            let mut i = match cur {
                Some(i) => i,
                None => new_iface_exec(r),
            };
            apply_record_exec(&mut i, r);
            cur = Some(i);
        }
        k += 1;
    }
    assert(recs@.take(recs@.len() as int) =~= recs@);
    cur
}

fn has_string(v: &Vec<String>, x: &String) -> (b: bool)
    ensures
        b == v.deep_view().contains(x@),
{
    let mut i: usize = 0;
    while i < v.len()
        invariant
            i <= v@.len(),
            forall|k: int| 0 <= k < i ==> v@[k]@ != x@,
        decreases v@.len() - i,
    {
        if string_eq(&v[i], x) {
            assert(v.deep_view()[i as int] == x@);
            return true;
        }
        i += 1;
    }
    assert forall|k: int| 0 <= k < v.deep_view().len() implies v.deep_view()[k] != x@ by {
        assert(v.deep_view()[k] == v@[k]@);
    }
    false
}

/// The names the records give, each once.
fn record_names(recs: &Vec<IfAddrRecord>) -> (r: Vec<String>)
    ensures
        r.deep_view().no_duplicates(),
        forall|n: Seq<char>| r.deep_view().contains(n) <==> names_rec(recs@, n),
{
    let mut names: Vec<String> = Vec::new();
    let mut k: usize = 0;
    while k < recs.len()
        invariant
            k <= recs@.len(),
            names.deep_view().no_duplicates(),
            forall|n: Seq<char>| #[trigger] names.deep_view().contains(n) == names_rec(recs@.take(k as int), n),
        decreases recs@.len() - k,
    {
        let ghost t = recs@.take(k as int);
        let ghost t1 = recs@.take(k + 1);
        let ghost x = recs@[k as int].name@;
        let ghost n0 = names.deep_view();
        assert(t1[k as int] == recs@[k as int]);
        assert forall|n: Seq<char>| names_rec(t1, n) == (names_rec(t, n) || x == n) by {
            if names_rec(t1, n) {
                let j = choose|j: int| 0 <= j < t1.len() && #[trigger] t1[j].name@ == n;
                if j < k {
                    assert(t[j] == t1[j]);
                }
            }
            if names_rec(t, n) {
                let j = choose|j: int| 0 <= j < t.len() && #[trigger] t[j].name@ == n;
                assert(t1[j] == t[j]);
            }
        }
        if !has_string(&names, &recs[k].name) {
            names.push(recs[k].name.clone());
            assert(names.deep_view() =~= n0.push(x));
            assert forall|a: int, b: int| 0 <= a < names.deep_view().len() && 0 <= b < names.deep_view().len() && a != b implies names.deep_view()[a] != names.deep_view()[b] by {
                if a < n0.len() && b < n0.len() {
                } else if a < n0.len() {
                    assert(n0.contains(n0[a]));
                } else if b < n0.len() {
                    assert(n0.contains(n0[b]));
                }
            }
            assert forall|n: Seq<char>| #[trigger] names.deep_view().contains(n) == names_rec(t1, n) by {
                assert(n0.contains(n) == names_rec(t, n));
                if names.deep_view().contains(n) {
                    let j = choose|j: int| 0 <= j < names.deep_view().len() && names.deep_view()[j] == n;
                    if j < n0.len() {
                        assert(n0[j] == n);
                    }
                }
                if n0.contains(n) {
                    let j = choose|j: int| 0 <= j < n0.len() && n0[j] == n;
                    assert(names.deep_view()[j] == n);
                }
                if x == n {
                    assert(names.deep_view()[n0.len() as int] == n);
                }
            }
        } else {
            assert(n0.contains(x));
            assert forall|n: Seq<char>| #[trigger] names.deep_view().contains(n) == names_rec(t1, n) by {
                assert(n0.contains(n) == names_rec(t, n));
                assert(n0.contains(x) == names_rec(t, x));
            }
        }
        k += 1;
    }
    assert(recs@.take(recs@.len() as int) =~= recs@);
    names
}

/// The interfaces of the records: one per name, in name order (strictly
/// ascending), each gathered from its records in order (so its first IPv4
/// and first IPv6 address are not aliases and later ones are), loopback
/// Gathering never sets the description, status, groups, members or
/// driver name: those are read separately.
proof fn lemma_fold_bare(recs: Seq<IfAddrRecord>, name: Seq<char>)
    ensures
        iface_fold(recs, name) matches Some(v) ==> v.description is None && v.status is None
            && v.groups.len() == 0 && v.members.len() == 0 && v.driver_name is None,
    decreases recs.len(),
{
    if recs.len() > 0 {
        lemma_fold_bare(recs.drop_last(), name);
    }
}

/// interfaces (by their first record's flags) left out.
pub fn aggregate_interfaces(recs: &Vec<IfAddrRecord>) -> (r: Vec<NetworkInterface>)
    ensures
        forall|i: int, j: int| 0 <= i < j < r@.len() ==> str_lt(#[trigger] r@[i].name@, #[trigger] r@[j].name@),
        forall|k: int|
            0 <= k < r@.len() ==> iface_fold(recs@, (#[trigger] r@[k]).name@) == Some(iface_view(r@[k]))
                && !r@[k].is_loopback,
        forall|n: Seq<char>|
            names_rec(recs@, n) && !(#[trigger] iface_fold(recs@, n))->0.is_loopback ==> exists|k: int|
                0 <= k < r@.len() && r@[k].name@ == n,
        forall|k: int|
            0 <= k < r@.len() ==> (#[trigger] r@[k]).description is None && r@[k].status is None
                && r@[k].groups@.len() == 0 && r@[k].members@.len() == 0 && r@[k].driver_name is None,
{
    broadcast use vstd::seq_lib::group_to_multiset_ensures;

    let names = record_names(recs);
    let sorted = sort_strings(&names);
    let ghost nv = names.deep_view();
    let ghost sv = sorted.deep_view();
    proof {
        nv.lemma_multiset_has_no_duplicates();
        sv.lemma_multiset_has_no_duplicates_conv();
        assert forall|n: Seq<char>| sv.contains(n) <==> nv.contains(n) by {
            assert(sv.to_multiset().count(n) == nv.to_multiset().count(n));
        }
    }
    let mut out: Vec<NetworkInterface> = Vec::new();
    let ghost mut pos: Seq<int> = Seq::empty();
    let mut k: usize = 0;
    while k < sorted.len()
        invariant
            k <= sorted@.len() == sv.len(),
            sv == sorted.deep_view(),
            sorted_strs(sv),
            sv.no_duplicates(),
            forall|n: Seq<char>| sv.contains(n) <==> names_rec(recs@, n),
            pos.len() == out@.len(),
            forall|a: int| 0 <= a < pos.len() ==> 0 <= #[trigger] pos[a] < k && out@[a].name@ == sv[pos[a]],
            forall|a: int, c: int| 0 <= a < c < pos.len() ==> #[trigger] pos[a] < #[trigger] pos[c],
            forall|a: int|
                0 <= a < out@.len() ==> iface_fold(recs@, (#[trigger] out@[a]).name@) == Some(iface_view(out@[a]))
                    && !out@[a].is_loopback,
            forall|b: int|
                0 <= b < k && !(#[trigger] iface_fold(recs@, sv[b]))->0.is_loopback ==> exists|a: int|
                    0 <= a < pos.len() && pos[a] == b,
        decreases sorted@.len() - k,
    {
        assert(sv[k as int] == sorted@[k as int]@);
        assert(sv.contains(sv[k as int]));
        proof {
            lemma_fold_some(recs@, sv[k as int]);
        }
        match gather(recs, &sorted[k]) {
            Some(i) => {
                if !i.is_loopback {
                    let ghost before = out@;
                    let ghost p0 = pos;
                    out.push(i);
                    proof {
                        pos = pos.push(k as int);
                    }
                    assert forall|a: int| 0 <= a < out@.len() implies iface_fold(recs@, (#[trigger] out@[a]).name@) == Some(iface_view(out@[a])) && !out@[a].is_loopback by {
                        if a < before.len() {
                            assert(out@[a] == before[a]);
                        }
                    }
                    assert forall|a: int| 0 <= a < pos.len() implies 0 <= #[trigger] pos[a] < k + 1 && out@[a].name@ == sv[pos[a]] by {
                        if a < before.len() {
                            assert(out@[a] == before[a]);
                            assert(pos[a] == p0[a]);
                        }
                    }
                    assert forall|b: int| 0 <= b < k + 1 && !(#[trigger] iface_fold(recs@, sv[b]))->0.is_loopback implies exists|a: int| 0 <= a < pos.len() && pos[a] == b by {
                        if b < k {
                            let a = choose|a: int| 0 <= a < p0.len() && p0[a] == b;
                            assert(pos[a] == p0[a]);
                        } else {
                            assert(pos[p0.len() as int] == b);
                        }
                    }
                } else {
                    assert forall|b: int| 0 <= b < k + 1 && !(#[trigger] iface_fold(recs@, sv[b]))->0.is_loopback implies exists|a: int| 0 <= a < pos.len() && pos[a] == b by {
                        if b == k {
                            assert(iface_fold(recs@, sv[b]) == Some(iface_view(i)));
                        }
                    }
                }
            },
            None => {
                assert(false);
            },
        }
        k += 1;
    }
    proof {
        assert forall|i: int, j: int| 0 <= i < j < out@.len() implies str_lt(#[trigger] out@[i].name@, #[trigger] out@[j].name@) by {
            assert(pos[i] < pos[j]);
            assert(crate::text::str_le(sv[pos[i]], sv[pos[j]]));
            assert(sv[pos[i]] != sv[pos[j]]);
        }
        assert forall|n: Seq<char>| names_rec(recs@, n) && !(#[trigger] iface_fold(recs@, n))->0.is_loopback implies exists|k: int| 0 <= k < out@.len() && out@[k].name@ == n by {
            assert(sv.contains(n));
            let b = choose|b: int| 0 <= b < sv.len() && sv[b] == n;
            assert(!iface_fold(recs@, sv[b])->0.is_loopback);
            let a = choose|a: int| 0 <= a < pos.len() && pos[a] == b;
            assert(out@[a].name@ == n);
        }
    }
    proof {
        assert forall|k: int| 0 <= k < out@.len() implies (#[trigger] out@[k]).description is None
            && out@[k].status is None && out@[k].groups@.len() == 0 && out@[k].members@.len() == 0
            && out@[k].driver_name is None by {
            lemma_fold_bare(recs@, out@[k].name@);
            assert(iface_view(out@[k]).groups.len() == out@[k].groups@.len());
            assert(iface_view(out@[k]).members.len() == out@[k].members@.len());
        }
    }
    out
}

// ───────────────────────── what the interface ioctls report ─────────────────────────

/// One member of a bridge as the bridge reports it.
#[derive(Debug, Clone)]
pub struct BridgeRecord {
    pub name: String,
    pub port: u8,
    pub priority: u8,
    pub path_cost: u32,
    pub vlan_proto: u16,
}

/// The groups, description, status and bridge members of an interface.
#[derive(Debug)]
pub struct IfaceExtras {
    pub groups: Vec<String>,
    pub description: Option<String>,
    pub status: Option<String>,
    pub members: Vec<BridgeMember>,
}

/// The groups shown: all but empty names and the `all` group.
pub open spec fn shown_groups(gs: Seq<Seq<char>>) -> Seq<Seq<char>>
    decreases gs.len(),
{
    if gs.len() == 0 {
        seq![]
    } else {
        let prev = shown_groups(gs.drop_last());
        let g = gs.last();
        if g.len() == 0 || g == "all"@ {
            prev
        } else {
            prev.push(g)
        }
    }
}

/// The bytes before the first NUL; none when there is no NUL.
pub open spec fn before_nul(b: Seq<u8>) -> Option<Seq<u8>> {
    if exists|k: int| 0 <= k < b.len() && b[k] == 0 {
        let k = choose|k: int| 0 <= k < b.len() && b[k] == 0 && forall|m: int| 0 <= m < k ==> b[m] != 0;
        Some(b.take(k))
    } else {
        None
    }
}

/// The description: the text before the NUL, when there is some.
pub open spec fn description_of(buf: Option<Seq<u8>>) -> Option<Seq<char>> {
    match buf {
        Some(b) => match before_nul(b) {
            Some(t) => if t.len() > 0 {
                Some(utf8_lossy(t))
            } else {
                None
            },
            None => None,
        },
        None => None,
    }
}

/// The lines of a status text, trimmed, blank ones left out.
pub open spec fn clean_lines(ls: Seq<Seq<char>>) -> Seq<Seq<char>>
    decreases ls.len(),
{
    if ls.len() == 0 {
        seq![]
    } else {
        let prev = clean_lines(ls.drop_last());
        let t = trim(ls.last());
        if t.len() == 0 {
            prev
        } else {
            prev.push(t)
        }
    }
}

/// The status: the non-blank lines of the text before the NUL, trimmed and
/// joined by newlines, when there are any.
pub open spec fn status_of(buf: Option<Seq<u8>>) -> Option<Seq<char>> {
    match buf {
        Some(b) => match before_nul(b) {
            Some(t) => {
                let ls = clean_lines(lines(utf8_lossy(t)));
                if t.len() > 0 && ls.len() > 0 {
                    Some(join(ls, "\n"@))
                } else {
                    None
                }
            },
            None => None,
        },
        None => None,
    }
}

/// How a bridge member is described.
pub open spec fn member_info(m: BridgeRecord) -> Seq<char> {
    "port "@ + dec(m.port as nat) + " priority "@ + dec(m.priority as nat) + " path cost "@ + dec(
        m.path_cost as nat,
    ) + match vlan_proto_spec(m.vlan_proto) {
        Some(p) => " vlan protocol "@ + p,
        None => Seq::<char>::empty(),
    }
}

/// The members shown: those with a name, each with its description.
pub open spec fn shown_members(ms: Seq<BridgeRecord>) -> Seq<(Seq<char>, Seq<char>)>
    decreases ms.len(),
{
    if ms.len() == 0 {
        seq![]
    } else {
        let prev = shown_members(ms.drop_last());
        let m = ms.last();
        if m.name@.len() == 0 {
            prev
        } else {
            prev.push((m.name@, member_info(m)))
        }
    }
}

fn before_nul_exec(b: &Vec<u8>) -> (r: Option<Vec<u8>>)
    ensures
        match r {
            Some(t) => before_nul(b@) == Some(t@),
            None => before_nul(b@) is None,
        },
{
    let mut k: usize = 0;
    while k < b.len() && b[k] != 0
        invariant
            k <= b@.len(),
            forall|m: int| 0 <= m < k ==> b@[m] != 0,
        decreases b@.len() - k,
    {
        k += 1;
    }
    if k == b.len() {
        return None;
    }
    proof {
        let c = choose|c: int| 0 <= c < b@.len() && b@[c] == 0 && forall|m: int| 0 <= m < c ==> b@[m] != 0;
        if c < k {
            assert(b@[c] != 0);
        }
        if k < c {
            assert(b@[k as int] != 0);
        }
    }
    let mut t: Vec<u8> = Vec::new();
    let mut i: usize = 0;
    while i < k
        invariant
            i <= k < b@.len(),
            t@ == b@.take(i as int),
        decreases k - i,
    {
        t.push(b[i]);
        assert(b@.take(i + 1) =~= b@.take(i as int).push(b@[i as int]));
        i += 1;
    }
    Some(t)
}

fn status_text(t: &Vec<u8>) -> (r: Option<String>)
    ensures
        match r {
            Some(s) => t@.len() > 0 && clean_lines(lines(utf8_lossy(t@))).len() > 0 && s@ == join(
                clean_lines(lines(utf8_lossy(t@))),
                "\n"@,
            ),
            None => t@.len() == 0 || clean_lines(lines(utf8_lossy(t@))).len() == 0,
        },
{
    if t.len() == 0 {
        return None;
    }
    let raw = utf8_lossy_of(t);
    let ls = split_lines(raw.as_str());
    let ghost lv = ls.deep_view();
    let mut kept: Vec<String> = Vec::new();
    let mut i: usize = 0;
    assert(lv.take(0) =~= Seq::<Seq<char>>::empty());
    while i < ls.len()
        invariant
            i <= ls@.len(),
            lv == ls.deep_view(),
            kept.deep_view() == clean_lines(lv.take(i as int)),
        decreases ls@.len() - i,
    {
        assert(lv.take(i + 1).drop_last() =~= lv.take(i as int));
        assert(lv[i as int] == ls@[i as int]@);
        let x = trim_str(ls[i].as_str());
        if !x.as_str().is_empty() {
            let ghost k0 = kept.deep_view();
            kept.push(x);
            assert(kept.deep_view() =~= k0.push(x@));
        }
        i += 1;
    }
    assert(lv.take(i as int) =~= lv);
    if kept.len() == 0 {
        None
    } else {
        Some(join_strings(&kept, "\n"))
    }
}

/// Groups, description, status and members of an interface from what its
/// ioctls returned: the group names, the description buffer and the status
/// buffer (when the ioctl succeeded), and the bridge member records.
pub fn iface_extras(
    groups: Vec<String>,
    descr: Option<Vec<u8>>,
    status: Option<Vec<u8>>,
    members: Vec<BridgeRecord>,
) -> (r: IfaceExtras)
    ensures
        r.groups.deep_view() == shown_groups(groups.deep_view()),
        opt_view(r.description) == description_of(
            match descr {
                Some(b) => Some(b@),
                None => None,
            },
        ),
        opt_view(r.status) == status_of(
            match status {
                Some(b) => Some(b@),
                None => None,
            },
        ),
        r.members@.map_values(|m: BridgeMember| (m.name@, m.info@)) == shown_members(members@),
{
    let ghost gv = groups.deep_view();
    let mut gs: Vec<String> = Vec::new();
    let mut i: usize = 0;
    assert(gv.take(0) =~= Seq::<Seq<char>>::empty());
    while i < groups.len()
        invariant
            i <= groups@.len(),
            gv == groups.deep_view(),
            gs.deep_view() == shown_groups(gv.take(i as int)),
        decreases groups@.len() - i,
    {
        assert(gv.take(i + 1).drop_last() =~= gv.take(i as int));
        assert(gv[i as int] == groups@[i as int]@);
        let g = &groups[i];
        if !g.as_str().is_empty() && !str_eq(g.as_str(), "all") {
            let ghost g0 = gs.deep_view();
            gs.push(g.clone());
            assert(gs.deep_view() =~= g0.push(gv[i as int]));
        }
        i += 1;
    }
    assert(gv.take(i as int) =~= gv);
    let description = match &descr {
        Some(b) => match before_nul_exec(b) {
            Some(t) => if t.len() > 0 {
                Some(utf8_lossy_of(&t))
            } else {
                None
            },
            None => None,
        },
        None => None,
    };
    let st = match &status {
        Some(b) => match before_nul_exec(b) {
            Some(t) => status_text(&t),
            None => None,
        },
        None => None,
    };
    let mut ms: Vec<BridgeMember> = Vec::new();
    let mut j: usize = 0;
    assert(members@.take(0) =~= Seq::<BridgeRecord>::empty());
    assert(ms@.map_values(|m: BridgeMember| (m.name@, m.info@)) =~= Seq::<(Seq<char>, Seq<char>)>::empty());
    while j < members.len()
        invariant
            j <= members@.len(),
            ms@.map_values(|m: BridgeMember| (m.name@, m.info@)) == shown_members(members@.take(j as int)),
        decreases members@.len() - j,
    {
        assert(members@.take(j + 1).drop_last() =~= members@.take(j as int));
        let m = &members[j];
        if !m.name.as_str().is_empty() {
            let mut info = owned("port ");
            push_dec(&mut info, m.port as u64);
            push_str(&mut info, " priority ");
            push_dec(&mut info, m.priority as u64);
            push_str(&mut info, " path cost ");
            push_dec(&mut info, m.path_cost as u64);
            let ghost i0 = info@;
            match decode_vlan_proto(m.vlan_proto) {
                Some(p) => {
                    push_str(&mut info, " vlan protocol ");
                    push_str(&mut info, p.as_str());
                },
                None => {
                    assert(info@ =~= i0 + Seq::<char>::empty());
                },
            }
            assert(info@ =~= member_info(*m));
            let ghost before = ms@.map_values(|m: BridgeMember| (m.name@, m.info@));
            ms.push(BridgeMember { name: m.name.clone(), info });
            assert(ms@.map_values(|m: BridgeMember| (m.name@, m.info@)) =~= before.push((members@[j as int].name@, member_info(members@[j as int]))));
        }
        j += 1;
    }
    assert(members@.take(j as int) =~= members@);
    IfaceExtras { groups: gs, description, status: st, members: ms }
}

} // verus!
