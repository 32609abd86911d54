//! Network interface configuration: the rc.conf `ifconfig_*` value grammar,
//! static routes, default routes, resolv.conf, and the plans of `ifconfig`
//! invocations that bring a live interface in line with its configuration.
use vstd::prelude::*;
use crate::error::{ApiError, ApiResult, is_bad_request, bad_request, bad_request_owned};
use crate::ifconfig::{is_dhcp_word, opt_nonblank, is_dhcp_str};
use crate::netaddr::{ipv4_value, ipv6_value, ip_addr_valid, parse_ipv4, parse_ipv6, ip_addr_parses};
use crate::num::{dec, dec_string, hex4, parse_u32, parse_unsigned, push_dec, push_hex4};
use crate::text::{
    all_alnum_or, all_alnum_or_str, before_char, before_char_str, chars_of, contains_char,
    eq_ignore_case, eq_ignore_case_str, find_char, join, join_strings, owned, push_char, push_str,
    split_ws, starts_with, starts_with_str, str_eq, string_eq, string_from, trim, trim_str, words,
};

verus! {

// ─── Route flags (`<net/route.h>`) ─────────────────────────────────────────

pub const RTF_UP: i32 = 0x1;
pub const RTF_GATEWAY: i32 = 0x2;
pub const RTF_HOST: i32 = 0x4;
pub const RTF_REJECT: i32 = 0x8;
pub const RTF_DYNAMIC: i32 = 0x10;
pub const RTF_MODIFIED: i32 = 0x20;
pub const RTF_CLONING: i32 = 0x100;
pub const RTF_STATIC: i32 = 0x800;
pub const RTF_BLACKHOLE: i32 = 0x1000;

// ─── Interface flags (`<net/if.h>`, FreeBSD) ───────────────────────────────

pub const IFF_UP: i32 = 0x1;
pub const IFF_BROADCAST: i32 = 0x2;
pub const IFF_DEBUG: i32 = 0x4;
pub const IFF_LOOPBACK: i32 = 0x8;
pub const IFF_POINTOPOINT: i32 = 0x10;
pub const IFF_RUNNING: i32 = 0x40;
pub const IFF_NOARP: i32 = 0x80;
pub const IFF_PROMISC: i32 = 0x100;
pub const IFF_SIMPLEX: i32 = 0x800;
pub const IFF_MULTICAST: i32 = 0x8000;

// ─── Public data structures ────────────────────────────────────────────────

#[derive(Debug)]
pub struct BridgeMember {
    pub name: String,
    pub info: String,
}

#[derive(Debug)]
pub struct IpConfig {
    pub address: String,
    pub netmask: Option<String>,
    pub prefix_len: Option<u8>,
    pub broadcast: Option<String>,
    pub is_alias: bool,
}

#[derive(Debug)]
pub struct NetworkInterface {
    pub name: String,
    pub description: Option<String>,
    pub status: Option<String>,
    pub flags: Vec<String>,
    pub is_up: bool,
    pub is_loopback: bool,
    pub is_physical: bool,
    pub mtu: u32,
    pub metric: u32,
    pub mac: Option<String>,
    pub link_state: String,
    pub baudrate: u64,
    pub groups: Vec<String>,
    pub members: Vec<BridgeMember>,
    pub ipv4: Vec<IpConfig>,
    pub ipv6: Vec<IpConfig>,
    pub driver_name: Option<String>,
}

#[derive(Debug)]
pub struct Route {
    pub family: String,
    pub destination: String,
    pub gateway: String,
    pub flags: String,
    pub interface: String,
    pub expire: Option<i64>,
}

#[derive(Debug)]
pub struct DefaultGateway {
    pub gateway: Option<String>,
    pub interface: Option<String>,
    pub configured: Option<String>,
    pub gateway6: Option<String>,
    pub interface6: Option<String>,
    pub configured6: Option<String>,
}

#[derive(Debug)]
pub struct DnsConfig {
    pub nameservers: Vec<String>,
    pub search: Vec<String>,
    pub domain: Option<String>,
    pub options: Vec<String>,
    pub sortlist: Vec<String>,
}

#[derive(Debug, Clone)]
pub struct RcIpv4Alias {
    pub address: String,
    pub netmask: String,
}

#[derive(Debug, Clone)]
pub struct RcIpv6Entry {
    pub address: String,
    pub prefixlen: String,
}

#[derive(Debug, Clone)]
pub struct IfaceRcConfConfig {
    pub interface: String,
    pub is_bridge: bool,
    pub is_lagg: bool,
    pub is_up: bool,
    pub ipv4: Option<String>,
    pub ipv4_netmask: Option<String>,
    pub ipv4_aliases: Vec<RcIpv4Alias>,
    pub ipv6_mode: String,
    pub ipv6: Vec<RcIpv6Entry>,
    pub bridge_members: Vec<String>,
    pub lagg_proto: Option<String>,
    pub lagg_ports: Vec<String>,
    pub mtu: Option<u32>,
    pub description: Option<String>,
    pub options: String,
    /// Desired interface name (rename target). None/empty → keep driver name.
    pub name: Option<String>,
}

/// An address with its qualifier (netmask or prefix length).
pub type PairView = (Seq<char>, Seq<char>);

#[verifier::ext_equal]
pub struct IfaceCfgView {
    pub interface: Seq<char>,
    pub is_bridge: bool,
    pub is_lagg: bool,
    pub is_up: bool,
    pub ipv4: Option<Seq<char>>,
    pub ipv4_netmask: Option<Seq<char>>,
    pub ipv4_aliases: Seq<PairView>,
    pub ipv6_mode: Seq<char>,
    pub ipv6: Seq<PairView>,
    pub bridge_members: Seq<Seq<char>>,
    pub lagg_proto: Option<Seq<char>>,
    pub lagg_ports: Seq<Seq<char>>,
    pub mtu: Option<u32>,
    pub description: Option<Seq<char>>,
    pub options: Seq<char>,
    pub name: Option<Seq<char>>,
}

pub open spec fn alias_view(a: RcIpv4Alias) -> PairView {
    (a.address@, a.netmask@)
}

pub open spec fn v6_view(e: RcIpv6Entry) -> PairView {
    (e.address@, e.prefixlen@)
}

impl View for IfaceRcConfConfig {
    type V = IfaceCfgView;

    open spec fn view(&self) -> IfaceCfgView {
        IfaceCfgView {
            interface: self.interface@,
            is_bridge: self.is_bridge,
            is_lagg: self.is_lagg,
            is_up: self.is_up,
            ipv4: self.ipv4.deep_view(),
            ipv4_netmask: self.ipv4_netmask.deep_view(),
            ipv4_aliases: self.ipv4_aliases@.map_values(|a: RcIpv4Alias| alias_view(a)),
            ipv6_mode: self.ipv6_mode@,
            ipv6: self.ipv6@.map_values(|e: RcIpv6Entry| v6_view(e)),
            bridge_members: self.bridge_members.deep_view(),
            lagg_proto: self.lagg_proto.deep_view(),
            lagg_ports: self.lagg_ports.deep_view(),
            mtu: self.mtu,
            description: self.description.deep_view(),
            options: self.options@,
            name: self.name.deep_view(),
        }
    }
}

/// The configuration with every field empty.
pub open spec fn empty_cfg() -> IfaceCfgView {
    IfaceCfgView {
        interface: seq![],
        is_bridge: false,
        is_lagg: false,
        is_up: false,
        ipv4: None,
        ipv4_netmask: None,
        ipv4_aliases: seq![],
        ipv6_mode: seq![],
        ipv6: seq![],
        bridge_members: seq![],
        lagg_proto: None,
        lagg_ports: seq![],
        mtu: None,
        description: None,
        options: seq![],
        name: None,
    }
}

impl Default for RcIpv4Alias {
    fn default() -> (r: Self)
        ensures
            r.address@ == Seq::<char>::empty(),
            r.netmask@ == Seq::<char>::empty(),
    {
        RcIpv4Alias { address: String::new(), netmask: String::new() }
    }
}

impl Default for RcIpv6Entry {
    fn default() -> (r: Self)
        ensures
            r.address@ == Seq::<char>::empty(),
            r.prefixlen@ == Seq::<char>::empty(),
    {
        RcIpv6Entry { address: String::new(), prefixlen: String::new() }
    }
}

impl Default for IfaceRcConfConfig {
    fn default() -> (r: Self)
        ensures
            r@ =~= empty_cfg(),
    {
        IfaceRcConfConfig {
            interface: String::new(),
            is_bridge: false,
            is_lagg: false,
            is_up: false,
            ipv4: None,
            ipv4_netmask: None,
            ipv4_aliases: Vec::new(),
            ipv6_mode: String::new(),
            ipv6: Vec::new(),
            bridge_members: Vec::new(),
            lagg_proto: None,
            lagg_ports: Vec::new(),
            mtu: None,
            description: None,
            options: String::new(),
            name: None,
        }
    }
}

/// A copy of an optional string.
pub fn copy_opt(o: &Option<String>) -> (r: Option<String>)
    ensures
        r.deep_view() == o.deep_view(),
{
    match o {
        Some(s) => Some(s.clone()),
        None => None,
    }
}

/// A copy of a list of strings.
pub fn copy_strings(v: &Vec<String>) -> (r: Vec<String>)
    ensures
        r.deep_view() == v.deep_view(),
{
    let mut out: Vec<String> = Vec::new();
    let mut i: usize = 0;
    while i < v.len()
        invariant
            i <= v@.len(),
            out.deep_view() == v.deep_view().take(i as int),
        decreases v@.len() - i,
    {
        let ghost before = out.deep_view();
        let c = v[i].clone();
        assert(c@ == v.deep_view()[i as int]);
        out.push(c);
        assert(out.deep_view() =~= before.push(v.deep_view()[i as int]));
        assert(v.deep_view().take(i + 1) =~= v.deep_view().take(i as int).push(v.deep_view()[i as int]));
        i += 1;
    }
    assert(v.deep_view().take(v@.len() as int) =~= v.deep_view());
    out
}

impl RcIpv4Alias {
    pub fn copy(&self) -> (r: Self)
        ensures
            alias_view(r) == alias_view(*self),
    {
        RcIpv4Alias { address: self.address.clone(), netmask: self.netmask.clone() }
    }
}

impl RcIpv6Entry {
    pub fn copy(&self) -> (r: Self)
        ensures
            v6_view(r) == v6_view(*self),
    {
        RcIpv6Entry { address: self.address.clone(), prefixlen: self.prefixlen.clone() }
    }
}

pub fn copy_aliases(v: &Vec<RcIpv4Alias>) -> (r: Vec<RcIpv4Alias>)
    ensures
        r@.map_values(|a: RcIpv4Alias| alias_view(a)) == v@.map_values(|a: RcIpv4Alias| alias_view(a)),
{
    let mut out: Vec<RcIpv4Alias> = Vec::new();
    let mut i: usize = 0;
    while i < v.len()
        invariant
            i <= v@.len(),
            out@.map_values(|a: RcIpv4Alias| alias_view(a)) == v@.map_values(|a: RcIpv4Alias| alias_view(a)).take(i as int),
        decreases v@.len() - i,
    {
        let ghost before = out@;
        let c = v[i].copy();
        out.push(c);
        assert(out@ == before.push(c));
        assert(out@.map_values(|a: RcIpv4Alias| alias_view(a)) =~= before.map_values(|a: RcIpv4Alias| alias_view(a)).push(alias_view(c)));
        assert(out@.map_values(|a: RcIpv4Alias| alias_view(a)) =~= v@.map_values(|a: RcIpv4Alias| alias_view(a)).take(i + 1));
        i += 1;
    }
    assert(v@.map_values(|a: RcIpv4Alias| alias_view(a)).take(v@.len() as int) =~= v@.map_values(|a: RcIpv4Alias| alias_view(a)));
    out
}

pub fn copy_v6(v: &Vec<RcIpv6Entry>) -> (r: Vec<RcIpv6Entry>)
    ensures
        r@.map_values(|e: RcIpv6Entry| v6_view(e)) == v@.map_values(|e: RcIpv6Entry| v6_view(e)),
{
    let mut out: Vec<RcIpv6Entry> = Vec::new();
    let mut i: usize = 0;
    while i < v.len()
        invariant
            i <= v@.len(),
            out@.map_values(|e: RcIpv6Entry| v6_view(e)) == v@.map_values(|e: RcIpv6Entry| v6_view(e)).take(i as int),
        decreases v@.len() - i,
    {
        let ghost before = out@;
        let c = v[i].copy();
        out.push(c);
        assert(out@ == before.push(c));
        assert(out@.map_values(|e: RcIpv6Entry| v6_view(e)) =~= before.map_values(|e: RcIpv6Entry| v6_view(e)).push(v6_view(c)));
        assert(out@.map_values(|e: RcIpv6Entry| v6_view(e)) =~= v@.map_values(|e: RcIpv6Entry| v6_view(e)).take(i + 1));
        i += 1;
    }
    assert(v@.map_values(|e: RcIpv6Entry| v6_view(e)).take(v@.len() as int) =~= v@.map_values(|e: RcIpv6Entry| v6_view(e)));
    out
}

impl IfaceRcConfConfig {
    /// A field-by-field copy.
    pub fn copy(&self) -> (r: Self)
        ensures
            r@ == self@,
    {
        let r = IfaceRcConfConfig {
            interface: self.interface.clone(),
            is_bridge: self.is_bridge,
            is_lagg: self.is_lagg,
            is_up: self.is_up,
            ipv4: copy_opt(&self.ipv4),
            ipv4_netmask: copy_opt(&self.ipv4_netmask),
            ipv4_aliases: copy_aliases(&self.ipv4_aliases),
            ipv6_mode: self.ipv6_mode.clone(),
            ipv6: copy_v6(&self.ipv6),
            bridge_members: copy_strings(&self.bridge_members),
            lagg_proto: copy_opt(&self.lagg_proto),
            lagg_ports: copy_strings(&self.lagg_ports),
            mtu: self.mtu,
            description: copy_opt(&self.description),
            options: self.options.clone(),
            name: copy_opt(&self.name),
        };
        assert(r@ =~= self@);
        r
    }
}

#[derive(Debug)]
pub struct CreateIfaceBody {
    pub name: String,
}

#[derive(Debug)]
pub struct ApplyResult {
    pub success: bool,
    pub output: String,
}

#[derive(Debug)]
pub struct SetGatewayBody {
    pub gateway: Option<String>,
    pub gateway6: Option<String>,
}

#[derive(Debug)]
pub struct SetNameserversBody {
    pub nameservers: Vec<String>,
}

/// A static route entry stored in rc.conf.
#[derive(Debug, Clone)]
pub struct StaticRoute {
    pub name: String,
    pub destination: String,
    pub gateway: String,
    pub family: String,
    pub is_host: bool,
}

#[derive(Debug)]
pub struct StaticRouteInput {
    pub destination: String,
    pub gateway: String,
    pub name: Option<String>,
}

/// View of an optional string slice.
pub open spec fn opt_str(o: Option<&str>) -> Option<Seq<char>> {
    match o {
        Some(s) => Some(s@),
        None => None,
    }
}

// ─── Flag decoding ─────────────────────────────────────────────────────────

/// One flag letter when `bit` is set in `flags`.
pub open spec fn flag_letter(flags: i32, bit: i32, letter: char) -> Seq<char> {
    if flags & bit != 0 {
        seq![letter]
    } else {
        seq![]
    }
}

/// The `netstat -rn` notation of `RTF_*` flags: one letter per set flag in
/// the order U G H R D M C S B, or `?` when none is set.
pub open spec fn route_flags_spec(flags: i32) -> Seq<char> {
    let s = flag_letter(flags, RTF_UP, 'U') + flag_letter(flags, RTF_GATEWAY, 'G') + flag_letter(
        flags,
        RTF_HOST,
        'H',
    ) + flag_letter(flags, RTF_REJECT, 'R') + flag_letter(flags, RTF_DYNAMIC, 'D')
        + flag_letter(flags, RTF_MODIFIED, 'M') + flag_letter(flags, RTF_CLONING, 'C')
        + flag_letter(flags, RTF_STATIC, 'S') + flag_letter(flags, RTF_BLACKHOLE, 'B');
    if s.len() == 0 {
        seq!['?']
    } else {
        s
    }
}

fn push_flag(s: &mut String, flags: i32, bit: i32, letter: char)
    ensures
        final(s)@ == old(s)@ + flag_letter(flags, bit, letter),
{
    if flags & bit != 0 {
        push_char(s, letter);
    } else {
        assert(old(s)@ + flag_letter(flags, bit, letter) =~= old(s)@);
    }
}

/// Decode `RTF_*` flags into the compact notation used by `netstat -rn`.
pub fn route_flags_to_string(flags: i32) -> (s: String)
    ensures
        s@ == route_flags_spec(flags),
{
    let mut s = String::new();
    let ghost e: Seq<char> = seq![];
    push_flag(&mut s, flags, RTF_UP, 'U');
    push_flag(&mut s, flags, RTF_GATEWAY, 'G');
    push_flag(&mut s, flags, RTF_HOST, 'H');
    push_flag(&mut s, flags, RTF_REJECT, 'R');
    push_flag(&mut s, flags, RTF_DYNAMIC, 'D');
    push_flag(&mut s, flags, RTF_MODIFIED, 'M');
    push_flag(&mut s, flags, RTF_CLONING, 'C');
    push_flag(&mut s, flags, RTF_STATIC, 'S');
    push_flag(&mut s, flags, RTF_BLACKHOLE, 'B');
    assert(s@ =~= e + flag_letter(flags, RTF_UP, 'U') + flag_letter(flags, RTF_GATEWAY, 'G')
        + flag_letter(flags, RTF_HOST, 'H') + flag_letter(flags, RTF_REJECT, 'R') + flag_letter(
        flags,
        RTF_DYNAMIC,
        'D',
    ) + flag_letter(flags, RTF_MODIFIED, 'M') + flag_letter(flags, RTF_CLONING, 'C')
        + flag_letter(flags, RTF_STATIC, 'S') + flag_letter(flags, RTF_BLACKHOLE, 'B'));
    if s.as_str().is_empty() {
        push_char(&mut s, '?');
    }
    s
}

/// One flag name when `bit` is set in `flags`.
pub open spec fn flag_name(flags: i32, bit: i32, name: Seq<char>) -> Seq<Seq<char>> {
    if flags & bit != 0 {
        seq![name]
    } else {
        seq![]
    }
}

/// Names of the set `IFF_*` flags, in the fixed order of the table.
pub open spec fn iface_flags_spec(flags: i32) -> Seq<Seq<char>> {
    flag_name(flags, IFF_UP, "UP"@) + flag_name(flags, IFF_BROADCAST, "BROADCAST"@) + flag_name(
        flags,
        IFF_DEBUG,
        "DEBUG"@,
    ) + flag_name(flags, IFF_LOOPBACK, "LOOPBACK"@) + flag_name(
        flags,
        IFF_POINTOPOINT,
        "POINTOPOINT"@,
    ) + flag_name(flags, IFF_RUNNING, "RUNNING"@) + flag_name(flags, IFF_NOARP, "NOARP"@)
        + flag_name(flags, IFF_PROMISC, "PROMISC"@) + flag_name(flags, IFF_SIMPLEX, "SIMPLEX"@)
        + flag_name(flags, IFF_MULTICAST, "MULTICAST"@)
}

fn push_flag_name(v: &mut Vec<String>, flags: i32, bit: i32, name: &str)
    ensures
        final(v).deep_view() == old(v).deep_view() + flag_name(flags, bit, name@),
{
    let ghost before = v.deep_view();
    if flags & bit != 0 {
        v.push(owned(name));
        assert(v.deep_view() =~= before + flag_name(flags, bit, name@));
    } else {
        assert(before + flag_name(flags, bit, name@) =~= before);
    }
}

/// Decode an `IFF_*` bitmask to human-readable strings.
pub fn flags_to_strings(flags: i32) -> (r: Vec<String>)
    ensures
        r.deep_view() == iface_flags_spec(flags),
{
    let mut v: Vec<String> = Vec::new();
    let ghost e: Seq<Seq<char>> = seq![];
    assert(v.deep_view() =~= e);
    push_flag_name(&mut v, flags, IFF_UP, "UP");
    push_flag_name(&mut v, flags, IFF_BROADCAST, "BROADCAST");
    push_flag_name(&mut v, flags, IFF_DEBUG, "DEBUG");
    push_flag_name(&mut v, flags, IFF_LOOPBACK, "LOOPBACK");
    push_flag_name(&mut v, flags, IFF_POINTOPOINT, "POINTOPOINT");
    push_flag_name(&mut v, flags, IFF_RUNNING, "RUNNING");
    push_flag_name(&mut v, flags, IFF_NOARP, "NOARP");
    push_flag_name(&mut v, flags, IFF_PROMISC, "PROMISC");
    push_flag_name(&mut v, flags, IFF_SIMPLEX, "SIMPLEX");
    push_flag_name(&mut v, flags, IFF_MULTICAST, "MULTICAST");
    assert(v.deep_view() =~= e + iface_flags_spec(flags));
    v
}

/// Set bits of a dotted-quad netmask; 0 when the text is not an IPv4 address.
pub open spec fn ipv4_prefix_spec(netmask: Seq<char>) -> nat {
    match ipv4_value(netmask) {
        Some(v) => crate::num::popcount(v as nat),
        None => 0,
    }
}

/// Convert dotted-quad netmask to prefix length.
pub fn ipv4_mask_to_prefix(netmask: &str) -> (r: u8)
    ensures
        r as nat == ipv4_prefix_spec(netmask@),
{
    match parse_ipv4(netmask) {
        Some(v) => crate::num::count_ones_u32(v) as u8,
        None => 0,
    }
}

/// Leading one-bits of an IPv6 mask: whole `0xff` bytes count 8, the first
/// other byte counts its set bits, and nothing after it counts.
pub open spec fn mask_prefix(m: Seq<u8>) -> nat
    decreases m.len(),
{
    if m.len() == 0 {
        0
    } else if m[0] == 0xff {
        8 + mask_prefix(m.drop_first())
    } else {
        crate::num::popcount(m[0] as nat)
    }
}

/// Count leading 1-bits in an IPv6 mask array.
pub fn ipv6_mask_to_prefix(mask: &[u8; 16]) -> (r: u8)
    ensures
        r as nat == mask_prefix(mask@),
{
    let mut len: u8 = 0;
    let mut i: usize = 0;
    assert(mask@.skip(0) =~= mask@);
    while i < 16
        invariant
            i <= 16,
            mask@.len() == 16,
            len == 8 * i,
            len + mask_prefix(mask@.skip(i as int)) == mask_prefix(mask@),
        decreases 16 - i,
    {
        let byte = mask[i];
        assert(mask@.skip(i as int)[0] == byte);
        if byte == 0xFF {
            assert(mask@.skip(i as int).drop_first() =~= mask@.skip(i + 1));
            len += 8;
        } else {
            let c = crate::num::count_ones_u32(byte as u32);
            proof {
                lemma_popcount_u8(byte);
            }
            return len + (c as u8);
        }
        i += 1;
    }
    assert(mask@.skip(16) =~= Seq::<u8>::empty());
    len
}

pub proof fn lemma_popcount_u8(b: u8)
    ensures
        crate::num::popcount(b as nat) <= 8,
{
    reveal_with_fuel(crate::num::pow2_32, 9);
    lemma_popcount_bound(b as nat, 8);
}

pub proof fn lemma_popcount_bound(n: nat, k: nat)
    requires
        n < crate::num::pow2_32(k),
    ensures
        crate::num::popcount(n) <= k,
    decreases k,
{
    crate::num::lemma_pow2_32_step(k);
    if n > 0 {
        if k == 0 {
            assert(false);
        } else {
            lemma_popcount_bound(n / 2, (k - 1) as nat);
        }
    }
}

/// Name of a VLAN ethertype: none for 0, the IEEE names for 0x8100/0x88a8,
/// `0x` and four hex digits otherwise.
pub open spec fn vlan_proto_spec(proto: u16) -> Option<Seq<char>> {
    if proto == 0 {
        None
    } else if proto == 0x8100 {
        Some("802.1Q"@)
    } else if proto == 0x88a8 {
        Some("802.1ad"@)
    } else {
        Some("0x"@ + hex4(proto))
    }
}

/// Decode VLAN protocol ethertype to a readable name.
pub fn decode_vlan_proto(proto: u16) -> (r: Option<String>)
    ensures
        r.deep_view() == vlan_proto_spec(proto),
{
    if proto == 0 {
        None
    } else if proto == 0x8100 {
        Some(owned("802.1Q"))
    } else if proto == 0x88a8 {
        Some(owned("802.1ad"))
    } else {
        let mut s = owned("0x");
        push_hex4(&mut s, proto);
        Some(s)
    }
}

// ─── Interface names ───────────────────────────────────────────────────────

/// `s.trim_end_matches(|c| c == 'a' || c == 'b')`.
pub open spec fn trim_end_ab(s: Seq<char>) -> Seq<char>
    decreases s.len(),
{
    if s.len() > 0 && (s.last() == 'a' || s.last() == 'b') {
        trim_end_ab(s.drop_last())
    } else {
        s
    }
}

/// For `epair<N>a`/`epair<N>b`, the pair's base name `epair<N>`.
pub open spec fn epair_base_spec(name: Seq<char>) -> Option<Seq<char>> {
    if !starts_with(name, "epair"@) {
        None
    } else {
        let base = trim_end_ab(name.skip(5));
        if base.len() == 0 {
            None
        } else {
            Some("epair"@ + base)
        }
    }
}

/// For epair interfaces like "epair0a" or "epair0b", return "epair0".
pub fn epair_base_name(name: &str) -> (r: Option<String>)
    ensures
        r.deep_view() == epair_base_spec(name@),
{
    if !starts_with_str(name, "epair") {
        return None;
    }
    let v = chars_of(name);
    proof {
        reveal_strlit("epair");
    }
    let mut j = v.len();
    while j > 5 && (v[j - 1] == 'a' || v[j - 1] == 'b')
        invariant
            5 <= j <= v@.len(),
            trim_end_ab(v@.subrange(5, j as int)) == trim_end_ab(v@.skip(5)),
        decreases j,
    {
        assert(v@.subrange(5, j as int).drop_last() =~= v@.subrange(5, j - 1));
        j -= 1;
    }
    assert(v@.subrange(5, v@.len() as int) =~= v@.skip(5)) by {
    }
    if j == 5 {
        assert(v@.subrange(5, 5) =~= Seq::<char>::empty());
        return None;
    }
    let mut s = owned("epair");
    let base = string_from(&v, 5, j);
    push_str(&mut s, base.as_str());
    Some(s)
}

/// Gateways compare equal when their parts before any `%zone` agree.
pub open spec fn same_gw_spec(a: Seq<char>, b: Seq<char>) -> bool {
    before_char(a, '%') == before_char(b, '%')
}

/// Compare gateway strings ignoring an IPv6 zone suffix (`fe80::1%em0`).
pub fn same_gw(a: &str, b: &str) -> (r: bool)
    ensures
        r == same_gw_spec(a@, b@),
{
    let x = before_char_str(a, '%');
    let y = before_char_str(b, '%');
    string_eq(&x, &y)
}

/// `live` is a default name for an interface created as `driver`: the driver
/// name itself, or for an epair base either half `<base>a` / `<base>b`.
pub open spec fn default_iface_name_spec(driver: Seq<char>, live: Seq<char>) -> bool {
    ||| driver == live
    ||| (starts_with(driver, "epair"@) && (live == driver + "a"@ || live == driver + "b"@))
}

/// Whether `live` is the natural default name for an interface whose driver
/// (creation) name is `driver`.
pub fn is_default_iface_name(driver: &str, live: &str) -> (r: bool)
    ensures
        r == default_iface_name_spec(driver@, live@),
{
    if str_eq(driver, live) {
        return true;
    }
    if starts_with_str(driver, "epair") {
        let mut da = owned(driver);
        push_str(&mut da, "a");
        let mut db = owned(driver);
        push_str(&mut db, "b");
        return str_eq(live, da.as_str()) || str_eq(live, db.as_str());
    }
    false
}

/// The live-name target of an interface save.
pub open spec fn target_name_spec(
    cfg_name: Option<Seq<char>>,
    driver: Seq<char>,
    live: Seq<char>,
    taken: Seq<Seq<char>>,
) -> Seq<char> {
    if cfg_name is Some && trim(cfg_name->0).len() > 0 {
        trim(cfg_name->0)
    } else if driver.len() == 0 || default_iface_name_spec(driver, live) {
        live
    } else if starts_with(driver, "epair"@) && !taken.contains(driver + "a"@) {
        driver + "a"@
    } else if starts_with(driver, "epair"@) && !taken.contains(driver + "b"@) {
        driver + "b"@
    } else {
        driver
    }
}

fn contains_string(list: &Vec<String>, s: &String) -> (r: bool)
    ensures
        r == list.deep_view().contains(s@),
{
    let mut i: usize = 0;
    while i < list.len()
        invariant
            i <= list@.len(),
            forall|k: int| 0 <= k < i ==> list.deep_view()[k] != s@,
        decreases list@.len() - i,
    {
        if string_eq(&list[i], s) {
            assert(list.deep_view()[i as int] == s@);
            return true;
        }
        i += 1;
    }
    false
}

/// Resolve the effective live-name target for an interface save: an explicit
/// non-empty name wins; an empty one keeps a default-named interface and
/// reverts a renamed one to its driver name, choosing for an epair the half of
/// the pair that is not among the `taken` live names.
pub fn resolve_target_name(cfg_name: Option<&str>, driver: &str, live: &str, taken: &Vec<String>) -> (r: String)
    ensures
        r@ == target_name_spec(opt_str(cfg_name), driver@, live@, taken.deep_view()),
{
    if let Some(n) = cfg_name {
        let t = trim_str(n);
        if !t.as_str().is_empty() {
            return t;
        }
    }
    if driver.is_empty() || is_default_iface_name(driver, live) {
        return owned(live);
    }
    if starts_with_str(driver, "epair") {
        let mut da = owned(driver);
        push_str(&mut da, "a");
        if !contains_string(taken, &da) {
            return da;
        }
        let mut db = owned(driver);
        push_str(&mut db, "b");
        if !contains_string(taken, &db) {
            return db;
        }
    }
    owned(driver)
}

// ─── Addresses a configuration manages ─────────────────────────────────────

/// Whether the interface's IPv4 is DHCP-managed (address owned by dhclient).
pub open spec fn is_dhcp_spec(c: IfaceCfgView) -> bool {
    c.ipv4 matches Some(x) && is_dhcp_word(trim(x))
}

pub fn is_dhcp(cfg: &IfaceRcConfConfig) -> (r: bool)
    ensures
        r == is_dhcp_spec(cfg@),
{
    match &cfg.ipv4 {
        Some(x) => {
            let t = trim_str(x.as_str());
            is_dhcp_str(t.as_str())
        },
        None => false,
    }
}

/// The trimmed items that are not blank, in order.
pub open spec fn trimmed_nonblank(items: Seq<Seq<char>>) -> Seq<Seq<char>>
    decreases items.len(),
{
    if items.len() == 0 {
        seq![]
    } else {
        let r = trimmed_nonblank(items.drop_last());
        if trim(items.last()).len() > 0 {
            r.push(trim(items.last()))
        } else {
            r
        }
    }
}

/// IPv4 addresses a configuration manages: the static primary plus aliases.
pub open spec fn managed_v4_spec(c: IfaceCfgView) -> Seq<Seq<char>> {
    (if !is_dhcp_spec(c) && opt_nonblank(c.ipv4) is Some {
        seq![opt_nonblank(c.ipv4)->0]
    } else {
        seq![]
    }) + trimmed_nonblank(c.ipv4_aliases.map_values(|a: PairView| a.0))
}

/// IPv4 addresses this config manages: the static primary plus aliases.
/// DHCP/SYNCDHCP primaries are excluded (not ours to manage).
pub fn managed_v4(cfg: &IfaceRcConfConfig) -> (r: Vec<String>)
    ensures
        r.deep_view() == managed_v4_spec(cfg@),
{
    let mut v: Vec<String> = Vec::new();
    if !is_dhcp(cfg) {
        if let Some(ip) = &cfg.ipv4 {
            let t = trim_str(ip.as_str());
            if !t.as_str().is_empty() {
                v.push(t);
            }
        }
    }
    let ghost head = v.deep_view();
    assert(head == if !is_dhcp_spec(cfg@) && opt_nonblank(cfg@.ipv4) is Some {
        seq![opt_nonblank(cfg@.ipv4)->0]
    } else {
        Seq::<Seq<char>>::empty()
    });
    let ghost addrs = cfg@.ipv4_aliases.map_values(|a: PairView| a.0);
    let mut k: usize = 0;
    assert(head + trimmed_nonblank(addrs.take(0)) =~= head);
    while k < cfg.ipv4_aliases.len()
        invariant
            k <= cfg.ipv4_aliases@.len(),
            addrs == cfg@.ipv4_aliases.map_values(|a: PairView| a.0),
            addrs.len() == cfg.ipv4_aliases@.len(),
            v.deep_view() == head + trimmed_nonblank(addrs.take(k as int)),
        decreases cfg.ipv4_aliases@.len() - k,
    {
        assert(addrs.take(k + 1).drop_last() =~= addrs.take(k as int));
        assert(addrs[k as int] == cfg.ipv4_aliases@[k as int].address@);
        let t = trim_str(cfg.ipv4_aliases[k].address.as_str());
        let ghost before = v.deep_view();
        if !t.as_str().is_empty() {
            v.push(t);
            assert(v.deep_view() =~= before.push(trim(addrs[k as int])));
        }
        k += 1;
    }
    assert(addrs.take(cfg.ipv4_aliases@.len() as int) =~= addrs);
    v
}

/// An IPv6 address (with optional `%zone`) in fe80::/10.
pub open spec fn link_local_spec(a: Seq<char>) -> bool {
    match ipv6_value(before_char(a, '%')) {
        Some(seg) => (seg[0] & 0xffc0u16) == 0xfe80u16,
        None => false,
    }
}

/// Whether an IPv6 address string (with optional `%zone`) is link-local.
pub fn is_link_local_v6(addr: &str) -> (r: bool)
    ensures
        r == link_local_spec(addr@),
{
    let ip = before_char_str(addr, '%');
    match parse_ipv6(ip.as_str()) {
        Some(seg) => (seg[0] & 0xffc0) == 0xfe80,
        None => false,
    }
}

/// Static IPv6 addresses that are not blank and not link-local.
pub open spec fn static_v6(items: Seq<Seq<char>>) -> Seq<Seq<char>>
    decreases items.len(),
{
    if items.len() == 0 {
        seq![]
    } else {
        let r = static_v6(items.drop_last());
        let t = trim(items.last());
        if t.len() > 0 && !link_local_spec(t) {
            r.push(t)
        } else {
            r
        }
    }
}

/// IPv6 addresses a configuration manages: static-mode entries only.
pub open spec fn managed_v6_spec(c: IfaceCfgView) -> Seq<Seq<char>> {
    if c.ipv6_mode != "static"@ {
        seq![]
    } else {
        static_v6(c.ipv6.map_values(|e: PairView| e.0))
    }
}

/// IPv6 addresses this config manages: static-mode entries only.
/// SLAAC/auto addresses are kernel-managed; link-local (fe80::/10) never is.
pub fn managed_v6(cfg: &IfaceRcConfConfig) -> (r: Vec<String>)
    ensures
        r.deep_view() == managed_v6_spec(cfg@),
{
    let mut v: Vec<String> = Vec::new();
    if !str_eq(cfg.ipv6_mode.as_str(), "static") {
        assert(v.deep_view() =~= Seq::<Seq<char>>::empty());
        return v;
    }
    let ghost addrs = cfg@.ipv6.map_values(|e: PairView| e.0);
    let mut k: usize = 0;
    assert(v.deep_view() =~= static_v6(addrs.take(0)));
    while k < cfg.ipv6.len()
        invariant
            k <= cfg.ipv6@.len(),
            addrs == cfg@.ipv6.map_values(|e: PairView| e.0),
            addrs.len() == cfg.ipv6@.len(),
            v.deep_view() == static_v6(addrs.take(k as int)),
        decreases cfg.ipv6@.len() - k,
    {
        assert(addrs.take(k + 1).drop_last() =~= addrs.take(k as int));
        assert(addrs[k as int] == cfg.ipv6@[k as int].address@);
        let t = trim_str(cfg.ipv6[k].address.as_str());
        let ghost before = v.deep_view();
        if !t.as_str().is_empty() && !is_link_local_v6(t.as_str()) {
            v.push(t);
            assert(v.deep_view() =~= before.push(trim(addrs[k as int])));
        }
        k += 1;
    }
    assert(addrs.take(cfg.ipv6@.len() as int) =~= addrs);
    v
}

/// The `ifconfig` arguments (after the interface name) for the primary,
/// non-structural settings: static IPv4 with netmask, MTU, description,
/// extra options and `up`.
pub open spec fn ifconfig_args_spec(c: IfaceCfgView) -> Seq<Seq<char>> {
    (match opt_nonblank(c.ipv4) {
        Some(ip) => if is_dhcp_word(ip) {
            seq![]
        } else {
            seq!["inet"@, ip] + match opt_nonblank(c.ipv4_netmask) {
                Some(nm) => seq!["netmask"@, nm],
                None => seq![],
            }
        },
        None => seq![],
    }) + (match c.mtu {
        Some(m) => if m > 0 {
            seq!["mtu"@, dec(m as nat)]
        } else {
            seq![]
        },
        None => seq![],
    }) + (match c.description {
        Some(d) => seq!["description"@, trim(d)],
        None => seq![],
    }) + words(c.options) + (if c.is_up {
        seq!["up"@]
    } else {
        seq![]
    })
}

fn push_owned(v: &mut Vec<String>, s: String)
    ensures
        final(v).deep_view() == old(v).deep_view().push(s@),
{
    let ghost before = v.deep_view();
    v.push(s);
    assert(v.deep_view() =~= before.push(s@));
}

/// A static address with a netmask is applied as `inet <address> netmask
/// <netmask>`, both trimmed, at the head of the arguments: the mask is
/// never left to the address class.
pub proof fn lemma_ifconfig_args_address(c: IfaceCfgView, ip: Seq<char>, nm: Seq<char>)
    requires
        c.ipv4 == Some(ip),
        c.ipv4_netmask == Some(nm),
        trim(ip).len() > 0,
        trim(nm).len() > 0,
        !is_dhcp_word(trim(ip)),
    ensures
        ifconfig_args_spec(c).len() >= 4,
        ifconfig_args_spec(c)[0] == "inet"@,
        ifconfig_args_spec(c)[1] == trim(ip),
        ifconfig_args_spec(c)[2] == "netmask"@,
        ifconfig_args_spec(c)[3] == trim(nm),
{
}

/// The other settings of the primary configuration, as `ifconfig` gets
/// them: a positive MTU as `mtu <n>`, a description as `description
/// <text>` (trimmed), and `up`, when the interface is up, as the last
/// argument.
pub proof fn lemma_ifconfig_args_settings(c: IfaceCfgView)
    ensures
        c.mtu is Some && c.mtu->Some_0 > 0 ==> exists|k: int|
            #![trigger ifconfig_args_spec(c)[k]]
            0 <= k && k + 1 < ifconfig_args_spec(c).len() && ifconfig_args_spec(c)[k] == "mtu"@
                && ifconfig_args_spec(c)[k + 1] == dec(c.mtu->Some_0 as nat),
        c.description is Some ==> exists|k: int|
            #![trigger ifconfig_args_spec(c)[k]]
            0 <= k && k + 1 < ifconfig_args_spec(c).len() && ifconfig_args_spec(c)[k] == "description"@
                && ifconfig_args_spec(c)[k + 1] == trim(c.description->Some_0),
        c.is_up ==> ifconfig_args_spec(c).len() > 0 && ifconfig_args_spec(c).last() == "up"@,
{
    let a = ifconfig_args_spec(c);
    let addr = match opt_nonblank(c.ipv4) {
        Some(ip) => if is_dhcp_word(ip) {
            seq![]
        } else {
            seq!["inet"@, ip] + match opt_nonblank(c.ipv4_netmask) {
                Some(nm) => seq!["netmask"@, nm],
                None => seq![],
            }
        },
        None => seq![],
    };
    let mt: Seq<Seq<char>> = match c.mtu {
        Some(m) => if m > 0 {
            seq!["mtu"@, dec(m as nat)]
        } else {
            seq![]
        },
        None => seq![],
    };
    let ds: Seq<Seq<char>> = match c.description {
        Some(d) => seq!["description"@, trim(d)],
        None => seq![],
    };
    let up: Seq<Seq<char>> = if c.is_up {
        seq!["up"@]
    } else {
        seq![]
    };
    assert(a == addr + mt + ds + words(c.options) + up);
    if c.mtu is Some && c.mtu->Some_0 > 0 {
        let m = c.mtu->Some_0;
        let k = addr.len() as int;
        assert(a[k] == "mtu"@ && a[k + 1] == dec(m as nat));
    }
    if c.description is Some {
        let k = (addr.len() + mt.len()) as int;
        assert(a[k] == "description"@ && a[k + 1] == trim(c.description->Some_0));
    }
}

/// Build ifconfig CLI args (excluding the interface name) from the primary
/// structured config.
pub fn build_ifconfig_args(cfg: &IfaceRcConfConfig) -> (r: Vec<String>)
    ensures
        r.deep_view() == ifconfig_args_spec(cfg@),
{
    let ghost c = cfg@;
    let mut args: Vec<String> = Vec::new();
    if let Some(ipv4) = &cfg.ipv4 {
        let ip = trim_str(ipv4.as_str());
        if !ip.as_str().is_empty() && !eq_ignore_case_str(ip.as_str(), "DHCP")
            && !eq_ignore_case_str(ip.as_str(), "SYNCDHCP") {
            push_owned(&mut args, owned("inet"));
            push_owned(&mut args, ip);
            if let Some(nm) = &cfg.ipv4_netmask {
                let nm = trim_str(nm.as_str());
                if !nm.as_str().is_empty() {
                    push_owned(&mut args, owned("netmask"));
                    push_owned(&mut args, nm);
                }
            }
        }
    }
    let ghost a1 = args.deep_view();
    assert(a1 =~= match opt_nonblank(c.ipv4) {
        Some(ip) => if is_dhcp_word(ip) {
            seq![]
        } else {
            seq!["inet"@, ip] + match opt_nonblank(c.ipv4_netmask) {
                Some(nm) => seq!["netmask"@, nm],
                None => seq![],
            }
        },
        None => seq![],
    });
    if let Some(mtu) = cfg.mtu {
        if mtu > 0 {
            push_owned(&mut args, owned("mtu"));
            push_owned(&mut args, dec_string(mtu as u64));
        }
    }
    let ghost a2 = args.deep_view();
    if let Some(desc) = &cfg.description {
        push_owned(&mut args, owned("description"));
        push_owned(&mut args, trim_str(desc.as_str()));
    }
    let ghost a3 = args.deep_view();
    let toks = split_ws(cfg.options.as_str());
    let mut k: usize = 0;
    while k < toks.len()
        invariant
            k <= toks@.len(),
            args.deep_view() == a3 + toks.deep_view().take(k as int),
        decreases toks@.len() - k,
    {
        let ghost before = args.deep_view();
        push_owned(&mut args, toks[k].clone());
        assert(args.deep_view() =~= a3 + toks.deep_view().take(k + 1));
        k += 1;
    }
    assert(toks.deep_view().take(toks@.len() as int) =~= toks.deep_view());
    if cfg.is_up {
        push_owned(&mut args, owned("up"));
    }
    assert(args.deep_view() =~= ifconfig_args_spec(c));
    args
}

// ─── Address validation ────────────────────────────────────────────────────

/// `'<addr>' <what>`.
pub fn quoted_message(addr: &str, what: &str) -> (r: String)
    ensures
        r@ == "'"@ + addr@ + "' "@ + what@,
{
    let mut m = owned("'");
    push_str(&mut m, addr);
    push_str(&mut m, "' ");
    push_str(&mut m, what);
    m
}

/// Validate that a string is a valid IPv4 or IPv6 address.
pub fn validate_ip(addr: &str) -> (r: ApiResult<()>)
    ensures
        ip_addr_valid(addr@) ==> r is Ok,
        !ip_addr_valid(addr@) ==> is_bad_request(r, "'"@ + addr@ + "' "@ + "is not a valid IP address"@),
{
    if ip_addr_parses(addr) {
        Ok(())
    } else {
        bad_request_owned(quoted_message(addr, "is not a valid IP address"))
    }
}

/// Validate a strict IPv4 address (gateway fields must be family-correct).
pub fn validate_ipv4(addr: &str) -> (r: ApiResult<()>)
    ensures
        ipv4_value(addr@) is Some ==> r is Ok,
        ipv4_value(addr@) is None ==> is_bad_request(r, "'"@ + addr@ + "' "@ + "is not a valid IPv4 address"@),
{
    if parse_ipv4(addr).is_some() {
        Ok(())
    } else {
        bad_request_owned(quoted_message(addr, "is not a valid IPv4 address"))
    }
}

/// A zone suffix: 1–15 bytes of `[a-zA-Z0-9_.-]`.
pub open spec fn zone_ok(z: Seq<char>) -> bool {
    z.len() > 0 && crate::text::byte_len(z) <= 15 && all_alnum_or(z, "_.-"@)
}

/// Validate an IPv6 address with an optional zone suffix (`fe80::1%em0`).
pub open spec fn ipv6_with_zone_ok(addr: Seq<char>) -> bool {
    ipv6_value(before_char(addr, '%')) is Some && match find_char(addr, '%') {
        Some(i) => zone_ok(addr.skip(i + 1)),
        None => true,
    }
}

pub fn validate_ipv6(addr: &str) -> (r: ApiResult<()>)
    ensures
        ipv6_value(before_char(addr@, '%')) is None ==> is_bad_request(
            r,
            "'"@ + addr@ + "' "@ + "is not a valid IPv6 address"@,
        ),
        ipv6_value(before_char(addr@, '%')) is Some && !ipv6_with_zone_ok(addr@) ==> is_bad_request(
            r,
            "invalid interface zone in '"@ + addr@ + "'"@,
        ),
        ipv6_with_zone_ok(addr@) ==> r is Ok,
{
    let ip = before_char_str(addr, '%');
    if parse_ipv6(ip.as_str()).is_none() {
        return bad_request_owned(quoted_message(addr, "is not a valid IPv6 address"));
    }
    match crate::text::split_once_str(addr, '%') {
        Some((_ip, z)) => {
            if z.as_str().is_empty() || crate::text::bytes_exceed(z.as_str(), 15) || !all_alnum_or_str(
                z.as_str(),
                "_.-",
            ) {
                let mut m = owned("invalid interface zone in '");
                push_str(&mut m, addr);
                push_str(&mut m, "'");
                return bad_request_owned(m);
            }
        },
        None => {},
    }
    Ok(())
}

} // verus!
