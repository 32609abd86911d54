//! The grammar of rc.conf `ifconfig_<name>` values: parsing a value into its
//! structured parts, and the small helpers the parser relies on.
use vstd::prelude::*;
use crate::num::{dec, parse_u32, parse_unsigned, push_dec};
use crate::error::{ApiError, ApiResult, is_bad_request, bad_request};
use crate::network::{default_iface_name_spec, is_default_iface_name, 
    IfaceRcConfConfig, IfaceCfgView, PairView, RcIpv4Alias, RcIpv6Entry, alias_view, v6_view,
    empty_cfg,
};
use crate::rcvars::RcVars;
use crate::text::{all_alnum_or, all_alnum_or_str, trim, trim_str, starts_with, starts_with_str};
use crate::text::{
    chars_of, eq_ignore_case, eq_ignore_case_str, find_char, join, join_strings, owned, push_char,
    push_str, split_once, split_once_str, split_ws, str_eq, string_eq, string_from, words, is_word,
};

verus! {

// ─── Keywords ──────────────────────────────────────────────────────────────

/// The ifconfig keywords that end a run of interface names.
pub open spec fn ifconfig_keyword_spec(t: Seq<char>) -> bool {
    ||| t == "inet"@
    ||| t == "inet6"@
    ||| t == "up"@
    ||| t == "down"@
    ||| t == "addm"@
    ||| t == "deletem"@
    ||| t == "netmask"@
    ||| t == "prefixlen"@
    ||| t == "mtu"@
    ||| t == "metric"@
    ||| t == "name"@
    ||| t == "DHCP"@
    ||| t == "dhcp"@
    ||| t == "SYNCDHCP"@
    ||| t == "syncdhcp"@
    ||| t == "WPA"@
    ||| t == "wpa"@
    ||| t == "polling"@
    ||| t == "-polling"@
    ||| t == "staticarp"@
    ||| t == "-staticarp"@
    ||| t == "description"@
    ||| t == "media"@
    ||| t == "mediaopt"@
    ||| t == "laggproto"@
    ||| t == "laggport"@
}

/// Check if a token is a known ifconfig keyword (not an interface name).
pub fn is_ifconfig_keyword(token: &str) -> (r: bool)
    ensures
        r == ifconfig_keyword_spec(token@),
{
    str_eq(token, "inet") || str_eq(token, "inet6") || str_eq(token, "up") || str_eq(token, "down")
        || str_eq(token, "addm") || str_eq(token, "deletem") || str_eq(token, "netmask") || str_eq(
        token,
        "prefixlen",
    ) || str_eq(token, "mtu") || str_eq(token, "metric") || str_eq(token, "name") || str_eq(
        token,
        "DHCP",
    ) || str_eq(token, "dhcp") || str_eq(token, "SYNCDHCP") || str_eq(token, "syncdhcp")
        || str_eq(token, "WPA") || str_eq(token, "wpa") || str_eq(token, "polling") || str_eq(
        token,
        "-polling",
    ) || str_eq(token, "staticarp") || str_eq(token, "-staticarp") || str_eq(token, "description")
        || str_eq(token, "media") || str_eq(token, "mediaopt") || str_eq(token, "laggproto")
        || str_eq(token, "laggport")
}

// ─── CIDR ──────────────────────────────────────────────────────────────────

/// The 32-bit mask with `prefix` leading one-bits.
pub open spec fn mask_of_prefix(prefix: u32) -> u32 {
    if prefix == 0 {
        0
    } else {
        !0u32 << ((32 - prefix) as u32)
    }
}

/// Dotted-quad rendering of a 32-bit value.
pub open spec fn dotted_quad(m: u32) -> Seq<char> {
    dec(((m >> 24u32) & 0xffu32) as nat) + "."@ + dec(((m >> 16u32) & 0xffu32) as nat) + "."@
        + dec(((m >> 8u32) & 0xffu32) as nat) + "."@ + dec((m & 0xffu32) as nat)
}

/// A CIDR prefix length in 0..=32, as a dotted-quad netmask.
pub open spec fn cidr_spec(cidr: Seq<char>) -> Option<Seq<char>> {
    match parse_unsigned(cidr, u32::MAX as nat) {
        Some(p) => if p > 32 {
            None
        } else {
            Some(dotted_quad(mask_of_prefix(p as u32)))
        },
        None => None,
    }
}

/// Convert CIDR prefix length to dotted-quad netmask.
pub fn cidr_to_netmask(cidr: &str) -> (r: Option<String>)
    ensures
        r.deep_view() == cidr_spec(cidr@),
{
    let prefix = match parse_u32(cidr) {
        Some(p) => p,
        None => return None,
    };
    if prefix > 32 {
        return None;
    }
    let mask: u32 = if prefix == 0 {
        0
    } else {
        !0u32 << (32 - prefix)
    };
    let mut s = String::new();
    let ghost e: Seq<char> = seq![];
    push_dec(&mut s, ((mask >> 24) & 0xff) as u64);
    push_str(&mut s, ".");
    push_dec(&mut s, ((mask >> 16) & 0xff) as u64);
    push_str(&mut s, ".");
    push_dec(&mut s, ((mask >> 8) & 0xff) as u64);
    push_str(&mut s, ".");
    push_dec(&mut s, (mask & 0xff) as u64);
    assert(s@ =~= e + dotted_quad(mask));
    Some(s)
}

// ─── Parsed value model ────────────────────────────────────────────────────

pub struct InetEntry {
    pub address: String,
    pub netmask: Option<String>,
}

pub struct Inet6Entry {
    pub address: String,
    pub prefixlen: Option<String>,
}

/// Structured parts of one `ifconfig_*` value.
pub struct ParsedIfConfig {
    pub is_up: bool,
    pub ipv4: Option<String>,
    pub ipv4_netmask: Option<String>,
    pub extra_inets: Vec<InetEntry>,
    pub inet6s: Vec<Inet6Entry>,
    pub ipv6_accept_rtadv: bool,
    pub bridge_members: Vec<String>,
    pub lagg_proto: Option<String>,
    pub lagg_ports: Vec<String>,
    pub mtu: Option<u32>,
    pub description: Option<String>,
    pub options_tokens: Vec<String>,
    pub name: Option<String>,
}

/// An address with an optional qualifier (netmask or prefix length).
pub type AddrView = (Seq<char>, Option<Seq<char>>);

#[verifier::ext_equal]
pub struct ParsedView {
    pub is_up: bool,
    pub ipv4: Option<Seq<char>>,
    pub ipv4_netmask: Option<Seq<char>>,
    pub extra_inets: Seq<AddrView>,
    pub inet6s: Seq<AddrView>,
    pub ipv6_accept_rtadv: bool,
    pub bridge_members: Seq<Seq<char>>,
    pub lagg_proto: Option<Seq<char>>,
    pub lagg_ports: Seq<Seq<char>>,
    pub mtu: Option<u32>,
    pub description: Option<Seq<char>>,
    pub options_tokens: Seq<Seq<char>>,
    pub name: Option<Seq<char>>,
}

pub open spec fn inet_view(e: InetEntry) -> AddrView {
    (e.address@, e.netmask.deep_view())
}

pub open spec fn inet6_view(e: Inet6Entry) -> AddrView {
    (e.address@, e.prefixlen.deep_view())
}

impl View for ParsedIfConfig {
    type V = ParsedView;

    open spec fn view(&self) -> ParsedView {
        ParsedView {
            is_up: self.is_up,
            ipv4: self.ipv4.deep_view(),
            ipv4_netmask: self.ipv4_netmask.deep_view(),
            extra_inets: self.extra_inets@.map_values(|e: InetEntry| inet_view(e)),
            inet6s: self.inet6s@.map_values(|e: Inet6Entry| inet6_view(e)),
            ipv6_accept_rtadv: self.ipv6_accept_rtadv,
            bridge_members: self.bridge_members.deep_view(),
            lagg_proto: self.lagg_proto.deep_view(),
            lagg_ports: self.lagg_ports.deep_view(),
            mtu: self.mtu,
            description: self.description.deep_view(),
            options_tokens: self.options_tokens.deep_view(),
            name: self.name.deep_view(),
        }
    }
}

pub open spec fn empty_parsed() -> ParsedView {
    ParsedView {
        is_up: false,
        ipv4: None,
        ipv4_netmask: None,
        extra_inets: seq![],
        inet6s: seq![],
        ipv6_accept_rtadv: false,
        bridge_members: seq![],
        lagg_proto: None,
        lagg_ports: seq![],
        mtu: None,
        description: None,
        options_tokens: seq![],
        name: None,
    }
}

impl ParsedIfConfig {
    pub fn new() -> (r: Self)
        ensures
            r@ =~= empty_parsed(),
    {
        ParsedIfConfig {
            is_up: false,
            ipv4: None,
            ipv4_netmask: None,
            extra_inets: Vec::new(),
            inet6s: Vec::new(),
            ipv6_accept_rtadv: false,
            bridge_members: Vec::new(),
            lagg_proto: None,
            lagg_ports: Vec::new(),
            mtu: None,
            description: None,
            options_tokens: Vec::new(),
            name: None,
        }
    }
}

// ─── The value grammar as a token machine ──────────────────────────────────

/// `s.trim_start_matches(c)`.
pub open spec fn trim_start_char(s: Seq<char>, c: char) -> Seq<char>
    decreases s.len(),
{
    if s.len() > 0 && s[0] == c {
        trim_start_char(s.drop_first(), c)
    } else {
        s
    }
}

/// `s.trim_end_matches(c)`.
pub open spec fn trim_end_char(s: Seq<char>, c: char) -> Seq<char>
    decreases s.len(),
{
    if s.len() > 0 && s.last() == c {
        trim_end_char(s.drop_last(), c)
    } else {
        s
    }
}

/// `s.trim_matches(c)`.
pub open spec fn trim_char(s: Seq<char>, c: char) -> Seq<char> {
    trim_end_char(trim_start_char(s, c), c)
}

/// Index just past the token that closes a quoted run starting at `k`: the
/// first token of two or more characters that ends with the quote `q`.
pub open spec fn quote_end(t: Seq<Seq<char>>, k: int, q: char) -> int
    decreases t.len() - k,
{
    if k >= t.len() {
        t.len() as int
    } else if t[k].len() > 1 && t[k].last() == q {
        k + 1
    } else {
        quote_end(t, k + 1, q)
    }
}

/// Tokens after `addm` up to the next keyword become bridge members, each
/// kept once.
pub open spec fn addm_run(t: Seq<Seq<char>>, k: int, m: Seq<Seq<char>>) -> (int, Seq<Seq<char>>)
    decreases t.len() - k,
{
    if k < 0 || k >= t.len() || ifconfig_keyword_spec(t[k]) {
        (k, m)
    } else {
        addm_run(t, k + 1, if m.contains(t[k]) { m } else { m.push(t[k]) })
    }
}

/// `m` without any element equal to `x`, order kept.
pub open spec fn remove_all(m: Seq<Seq<char>>, x: Seq<char>) -> Seq<Seq<char>>
    decreases m.len(),
{
    if m.len() == 0 {
        m
    } else if m.last() == x {
        remove_all(m.drop_last(), x)
    } else {
        remove_all(m.drop_last(), x).push(m.last())
    }
}

/// Tokens after `deletem` up to the next keyword are removed from the members.
pub open spec fn deletem_run(t: Seq<Seq<char>>, k: int, m: Seq<Seq<char>>) -> (int, Seq<Seq<char>>)
    decreases t.len() - k,
{
    if k < 0 || k >= t.len() || ifconfig_keyword_spec(t[k]) {
        (k, m)
    } else {
        deletem_run(t, k + 1, remove_all(m, t[k]))
    }
}

/// An `inet` address with an optional `/prefix` turned into a netmask.
pub open spec fn inet_addr(addr: Seq<char>) -> AddrView {
    match split_once(addr, '/') {
        Some((ip, c)) => (ip, cidr_spec(c)),
        None => (addr, None),
    }
}

/// One step of the value grammar at token `i`: the index of the next
/// unconsumed token and the updated parse.
pub open spec fn parse_step(t: Seq<Seq<char>>, i: int, p: ParsedView) -> (int, ParsedView) {
    let n = t.len() as int;
    let tok = t[i];
    if tok == "inet"@ {
        if i + 1 >= n {
            (n, p)
        } else if eq_ignore_case(t[i + 1], "dhcp"@) {
            (i + 2, ParsedView { ipv4: Some("DHCP"@), ..p })
        } else if eq_ignore_case(t[i + 1], "syncdhcp"@) {
            (i + 2, ParsedView { ipv4: Some("SYNCDHCP"@), ..p })
        } else {
            let a = inet_addr(t[i + 1]);
            if i + 2 < n && t[i + 2] == "netmask"@ {
                if i + 3 < n {
                    (i + 4, ParsedView { extra_inets: p.extra_inets.push((a.0, Some(t[i + 3]))), ..p })
                } else {
                    (i + 3, ParsedView { extra_inets: p.extra_inets.push(a), ..p })
                }
            } else {
                (i + 2, ParsedView { extra_inets: p.extra_inets.push(a), ..p })
            }
        }
    } else if tok == "inet6"@ {
        if i + 1 >= n {
            (n, p)
        } else if t[i + 1] == "accept_rtadv"@ {
            (i + 2, ParsedView { ipv6_accept_rtadv: true, ..p })
        } else if i + 2 < n && t[i + 2] == "prefixlen"@ {
            if i + 3 < n {
                (i + 4, ParsedView { inet6s: p.inet6s.push((t[i + 1], Some(t[i + 3]))), ..p })
            } else {
                (i + 3, ParsedView { inet6s: p.inet6s.push((t[i + 1], None)), ..p })
            }
        } else {
            (i + 2, ParsedView { inet6s: p.inet6s.push((t[i + 1], None)), ..p })
        }
    } else if tok == "up"@ {
        (i + 1, ParsedView { is_up: true, ..p })
    } else if tok == "down"@ {
        (i + 1, ParsedView { is_up: false, ..p })
    } else if tok == "addm"@ {
        let r = addm_run(t, i + 1, p.bridge_members);
        (r.0, ParsedView { bridge_members: r.1, ..p })
    } else if tok == "deletem"@ {
        let r = deletem_run(t, i + 1, p.bridge_members);
        (r.0, ParsedView { bridge_members: r.1, ..p })
    } else if tok == "mtu"@ {
        if i + 1 < n {
            (
                i + 2,
                ParsedView {
                    mtu: match parse_unsigned(t[i + 1], u32::MAX as nat) {
                        Some(v) => Some(v as u32),
                        None => None,
                    },
                    ..p
                },
            )
        } else {
            (i + 1, p)
        }
    } else if tok == "description"@ {
        if i + 1 >= n {
            (n, p)
        } else if t[i + 1].len() > 0 && (t[i + 1][0] == '\'' || t[i + 1][0] == '"') {
            let q = t[i + 1][0];
            let e = quote_end(t, i + 1, q);
            (e, ParsedView { description: Some(trim_char(join(t.subrange(i + 1, e), " "@), q)), ..p })
        } else {
            (i + 2, ParsedView { description: Some(t[i + 1]), ..p })
        }
    } else if tok == "laggproto"@ {
        if i + 1 < n {
            (i + 2, ParsedView { lagg_proto: Some(t[i + 1]), ..p })
        } else {
            (i + 1, p)
        }
    } else if tok == "laggport"@ {
        if i + 1 < n {
            (i + 2, ParsedView { lagg_ports: p.lagg_ports.push(t[i + 1]), ..p })
        } else {
            (i + 1, p)
        }
    } else if tok == "name"@ {
        if i + 1 < n {
            (i + 2, ParsedView { name: Some(t[i + 1]), ..p })
        } else {
            (i + 1, p)
        }
    } else if tok == "DHCP"@ || tok == "dhcp"@ {
        (i + 1, ParsedView { ipv4: Some("DHCP"@), ..p })
    } else if tok == "SYNCDHCP"@ || tok == "syncdhcp"@ {
        (i + 1, ParsedView { ipv4: Some("SYNCDHCP"@), ..p })
    } else {
        (i + 1, ParsedView { options_tokens: p.options_tokens.push(tok), ..p })
    }
}

/// Run the grammar from token `i` to the end.
pub open spec fn parse_from(t: Seq<Seq<char>>, i: int, p: ParsedView) -> ParsedView
    decreases t.len() - i,
{
    if i < 0 || i >= t.len() {
        p
    } else {
        let (j, q) = parse_step(t, i, p);
        if j <= i || j > t.len() {
            q
        } else {
            parse_from(t, j, q)
        }
    }
}

/// The first `inet` entry becomes the primary address unless DHCP set one.
pub open spec fn promote_primary(p: ParsedView) -> ParsedView {
    if p.ipv4 is None && p.extra_inets.len() > 0 {
        ParsedView { ipv4: Some(p.extra_inets[0].0), ipv4_netmask: p.extra_inets[0].1, ..p }
    } else {
        p
    }
}

/// The structured parse of an `ifconfig_*` value.
pub open spec fn parse_ifconfig_spec(value: Seq<char>) -> ParsedView {
    promote_primary(parse_from(words(value), 0, empty_parsed()))
}

// ─── Executable grammar ────────────────────────────────────────────────────

fn clone_string(s: &String) -> (r: String)
    ensures
        r@ == s@,
{
    s.clone()
}

fn vec_contains(list: &Vec<String>, s: &String) -> (r: bool)
    ensures
        r == list.deep_view().contains(s@),
{
    let mut i: usize = 0;
    while i < list.len()
        invariant
            i <= list@.len(),
            forall|k: int| 0 <= k < i ==> list.deep_view()[k] != s@,
        decreases list@.len() - i,
    {
        if string_eq(&list[i], s) {
            assert(list.deep_view()[i as int] == s@);
            return true;
        }
        i += 1;
    }
    false
}

/// `list.retain(|m| m != x)`.
fn remove_all_vec(list: &Vec<String>, x: &String) -> (r: Vec<String>)
    ensures
        r.deep_view() == remove_all(list.deep_view(), x@),
{
    let mut out: Vec<String> = Vec::new();
    let mut k: usize = 0;
    while k < list.len()
        invariant
            k <= list@.len(),
            out.deep_view() == remove_all(list.deep_view().take(k as int), x@),
        decreases list@.len() - k,
    {
        let ghost before = out.deep_view();
        assert(list.deep_view().take(k + 1).drop_last() =~= list.deep_view().take(k as int));
        if !string_eq(&list[k], x) {
            out.push(clone_string(&list[k]));
            assert(out.deep_view() =~= before.push(list.deep_view()[k as int]));
        }
        k += 1;
    }
    assert(list.deep_view().take(list@.len() as int) =~= list.deep_view());
    out
}

/// `s.trim_matches(c)`.
fn trim_char_string(s: &String, c: char) -> (r: String)
    ensures
        r@ == trim_char(s@, c),
{
    let v = chars_of(s.as_str());
    let n = v.len();
    let mut i: usize = 0;
    assert(v@.skip(0) =~= v@);
    while i < n && v[i] == c
        invariant
            i <= n == v@.len(),
            trim_start_char(v@.skip(i as int), c) == trim_start_char(v@, c),
        decreases n - i,
    {
        assert(v@.skip(i as int).drop_first() =~= v@.skip(i + 1));
        i += 1;
    }
    assert(v@.skip(0) =~= v@);
    let mut j: usize = n;
    while j > i && v[j - 1] == c
        invariant
            i <= j <= n == v@.len(),
            trim_end_char(v@.subrange(i as int, j as int), c) == trim_end_char(v@.skip(i as int), c),
        decreases j,
    {
        assert(v@.subrange(i as int, j as int).drop_last() =~= v@.subrange(i as int, j - 1));
        j -= 1;
    }
    assert(v@.subrange(i as int, n as int) =~= v@.skip(i as int));
    proof {
        assert(trim_start_char(v@.skip(i as int), c) == v@.skip(i as int));
        assert(trim_end_char(v@.subrange(i as int, j as int), c) == v@.subrange(i as int, j as int));
    }
    string_from(&v, i, j)
}

proof fn lemma_parse_from_unfold(t: Seq<Seq<char>>, i: int, p: ParsedView)
    requires
        0 <= i < t.len(),
        i < parse_step(t, i, p).0 <= t.len(),
    ensures
        parse_from(t, i, p) == parse_from(t, parse_step(t, i, p).0, parse_step(t, i, p).1),
{
}

/// The literal words of the grammar, spelled out.
proof fn lemma_grammar_words()
    ensures
        "inet"@ =~= seq!['i', 'n', 'e', 't'],
        "inet"@.len() == 4,
        "inet"@[0] == 'i',
        "dhcp"@ =~= seq!['d', 'h', 'c', 'p'],
        "dhcp"@.len() == 4,
        "dhcp"@[0] == 'd',
        "DHCP"@ =~= seq!['D', 'H', 'C', 'P'],
        "DHCP"@.len() == 4,
        "DHCP"@[0] == 'D',
        "syncdhcp"@ =~= seq!['s', 'y', 'n', 'c', 'd', 'h', 'c', 'p'],
        "syncdhcp"@.len() == 8,
        "syncdhcp"@[0] == 's',
        "SYNCDHCP"@ =~= seq!['S', 'Y', 'N', 'C', 'D', 'H', 'C', 'P'],
        "SYNCDHCP"@.len() == 8,
        "SYNCDHCP"@[0] == 'S',
        "netmask"@ =~= seq!['n', 'e', 't', 'm', 'a', 's', 'k'],
        "netmask"@.len() == 7,
        "netmask"@[0] == 'n',
        "inet6"@ =~= seq!['i', 'n', 'e', 't', '6'],
        "inet6"@.len() == 5,
        "inet6"@[0] == 'i',
        "accept_rtadv"@ =~= seq!['a', 'c', 'c', 'e', 'p', 't', '_', 'r', 't', 'a', 'd', 'v'],
        "accept_rtadv"@.len() == 12,
        "accept_rtadv"@[0] == 'a',
        "prefixlen"@ =~= seq!['p', 'r', 'e', 'f', 'i', 'x', 'l', 'e', 'n'],
        "prefixlen"@.len() == 9,
        "prefixlen"@[0] == 'p',
        "up"@ =~= seq!['u', 'p'],
        "up"@.len() == 2,
        "up"@[0] == 'u',
        "down"@ =~= seq!['d', 'o', 'w', 'n'],
        "down"@.len() == 4,
        "down"@[0] == 'd',
        "addm"@ =~= seq!['a', 'd', 'd', 'm'],
        "addm"@.len() == 4,
        "addm"@[0] == 'a',
        "deletem"@ =~= seq!['d', 'e', 'l', 'e', 't', 'e', 'm'],
        "deletem"@.len() == 7,
        "deletem"@[0] == 'd',
        "mtu"@ =~= seq!['m', 't', 'u'],
        "mtu"@.len() == 3,
        "mtu"@[0] == 'm',
        "description"@ =~= seq!['d', 'e', 's', 'c', 'r', 'i', 'p', 't', 'i', 'o', 'n'],
        "description"@.len() == 11,
        "description"@[0] == 'd',
        "laggproto"@ =~= seq!['l', 'a', 'g', 'g', 'p', 'r', 'o', 't', 'o'],
        "laggproto"@.len() == 9,
        "laggproto"@[0] == 'l',
        "laggport"@ =~= seq!['l', 'a', 'g', 'g', 'p', 'o', 'r', 't'],
        "laggport"@.len() == 8,
        "laggport"@[0] == 'l',
        "name"@ =~= seq!['n', 'a', 'm', 'e'],
        "name"@.len() == 4,
        "name"@[0] == 'n',
        " "@ =~= seq![' '],
        " "@.len() == 1,
        " "@[0] == ' ',
{
    reveal_strlit("inet");
    reveal_strlit("dhcp");
    reveal_strlit("DHCP");
    reveal_strlit("syncdhcp");
    reveal_strlit("SYNCDHCP");
    reveal_strlit("netmask");
    reveal_strlit("inet6");
    reveal_strlit("accept_rtadv");
    reveal_strlit("prefixlen");
    reveal_strlit("up");
    reveal_strlit("down");
    reveal_strlit("addm");
    reveal_strlit("deletem");
    reveal_strlit("mtu");
    reveal_strlit("description");
    reveal_strlit("laggproto");
    reveal_strlit("laggport");
    reveal_strlit("name");
    reveal_strlit(" ");
}

/// `inet <addr> [netmask <mask>]` or `inet dhcp|syncdhcp`.
fn step_inet(tokens: &Vec<String>, i0: usize, result: &mut ParsedIfConfig) -> (j: usize)
    requires
        i0 < tokens@.len(),
        tokens.deep_view()[i0 as int] == "inet"@,
    ensures
        (j as int, final(result)@) == parse_step(tokens.deep_view(), i0 as int, old(result)@),
{
    proof {
        lemma_grammar_words();
    }
    let ghost t = tokens.deep_view();
    let n = tokens.len();
    let mut i = i0 + 1;
    if i >= n {
        return n;
    }
    if eq_ignore_case_str(tokens[i].as_str(), "dhcp") {
        result.ipv4 = Some(owned("DHCP"));
        assert(result@ =~= parse_step(t, i - 1, old(result)@).1);
        return i + 1;
    }
    if eq_ignore_case_str(tokens[i].as_str(), "syncdhcp") {
        result.ipv4 = Some(owned("SYNCDHCP"));
        assert(result@ =~= parse_step(t, i - 1, old(result)@).1);
        return i + 1;
    }
    let addr = tokens[i].as_str();
    let (ip, mask_from_cidr) = match split_once_str(addr, '/') {
        Some((ip, cidr)) => (ip, cidr_to_netmask(cidr.as_str())),
        None => (owned(addr), None),
    };
    let ghost a = inet_addr(t[i as int]);
    assert(ip@ == a.0 && mask_from_cidr.deep_view() == a.1);
    i += 1;
    let mut netmask = mask_from_cidr;
    if i < n && str_eq(tokens[i].as_str(), "netmask") {
        i += 1;
        if i < n {
            netmask = Some(clone_string(&tokens[i]));
            i += 1;
        }
    }
    let ghost before = result.extra_inets@;
    let entry = InetEntry { address: ip, netmask };
    let ghost ev = inet_view(entry);
    result.extra_inets.push(entry);
    assert(result.extra_inets@.map_values(|e: InetEntry| inet_view(e)) =~= before.map_values(
        |e: InetEntry| inet_view(e),
    ).push(ev));
    assert(result@ =~= parse_step(t, i0 as int, old(result)@).1);
    i
}

/// `inet6 <addr> [prefixlen <n>]` or `inet6 accept_rtadv`.
fn step_inet6(tokens: &Vec<String>, i0: usize, result: &mut ParsedIfConfig) -> (j: usize)
    requires
        i0 < tokens@.len(),
        tokens.deep_view()[i0 as int] == "inet6"@,
    ensures
        (j as int, final(result)@) == parse_step(tokens.deep_view(), i0 as int, old(result)@),
{
    proof {
        lemma_grammar_words();
    }
    let ghost t = tokens.deep_view();
    let n = tokens.len();
    let mut i = i0 + 1;
    if i >= n {
        return n;
    }
    assert(t[i as int] == tokens@[i as int]@);
    if str_eq(tokens[i].as_str(), "accept_rtadv") {
        result.ipv6_accept_rtadv = true;
        assert(result@ =~= parse_step(t, i - 1, old(result)@).1);
        return i + 1;
    }
    let addr = clone_string(&tokens[i]);
    i += 1;
    let mut prefixlen = None;
    if i < n {
        assert(t[i as int] == tokens@[i as int]@);
    }
    if i < n && str_eq(tokens[i].as_str(), "prefixlen") {
        i += 1;
        if i < n {
            assert(t[i as int] == tokens@[i as int]@);
            prefixlen = Some(clone_string(&tokens[i]));
            i += 1;
        }
    }
    let ghost before = result.inet6s@;
    let entry = Inet6Entry { address: addr, prefixlen };
    let ghost ev = inet6_view(entry);
    result.inet6s.push(entry);
    assert(result.inet6s@.map_values(|e: Inet6Entry| inet6_view(e)) =~= before.map_values(
        |e: Inet6Entry| inet6_view(e),
    ).push(ev));
    assert(result@ =~= parse_step(t, i0 as int, old(result)@).1);
    i
}

/// `addm <member>...` up to the next keyword.
fn step_addm(tokens: &Vec<String>, i0: usize, result: &mut ParsedIfConfig) -> (j: usize)
    requires
        i0 < tokens@.len(),
        tokens.deep_view()[i0 as int] == "addm"@,
    ensures
        (j as int, final(result)@) == parse_step(tokens.deep_view(), i0 as int, old(result)@),
{
    proof {
        lemma_grammar_words();
    }
    let ghost t = tokens.deep_view();
    let n = tokens.len();
    let mut i = i0 + 1;
    let ghost goal = addm_run(t, i as int, old(result)@.bridge_members);
    let mut members = Vec::new();
    std::mem::swap(&mut members, &mut result.bridge_members);
    while i < n && !is_ifconfig_keyword(tokens[i].as_str())
        invariant
            n == tokens@.len(),
            t == tokens.deep_view(),
            0 < i <= n,
            addm_run(t, i as int, members.deep_view()) == goal,
        decreases n - i,
    {
        let ghost before = members.deep_view();
        assert(t[i as int] == tokens@[i as int]@);
        if !vec_contains(&members, &tokens[i]) {
            members.push(clone_string(&tokens[i]));
            assert(members.deep_view() =~= before.push(t[i as int]));
        }
        i += 1;
    }
    result.bridge_members = members;
    assert(result@ =~= parse_step(t, i0 as int, old(result)@).1);
    i
}

/// `deletem <member>...` up to the next keyword.
fn step_deletem(tokens: &Vec<String>, i0: usize, result: &mut ParsedIfConfig) -> (j: usize)
    requires
        i0 < tokens@.len(),
        tokens.deep_view()[i0 as int] == "deletem"@,
    ensures
        (j as int, final(result)@) == parse_step(tokens.deep_view(), i0 as int, old(result)@),
{
    proof {
        lemma_grammar_words();
    }
    let ghost t = tokens.deep_view();
    let n = tokens.len();
    let mut i = i0 + 1;
    let ghost goal = deletem_run(t, i as int, old(result)@.bridge_members);
    let mut members = Vec::new();
    std::mem::swap(&mut members, &mut result.bridge_members);
    while i < n && !is_ifconfig_keyword(tokens[i].as_str())
        invariant
            n == tokens@.len(),
            t == tokens.deep_view(),
            0 < i <= n,
            deletem_run(t, i as int, members.deep_view()) == goal,
        decreases n - i,
    {
        assert(t[i as int] == tokens@[i as int]@);
        members = remove_all_vec(&members, &tokens[i]);
        i += 1;
    }
    result.bridge_members = members;
    assert(result@ =~= parse_step(t, i0 as int, old(result)@).1);
    i
}

/// `description <word>` or a quoted run of words.
fn step_description(tokens: &Vec<String>, i0: usize, result: &mut ParsedIfConfig) -> (j: usize)
    requires
        i0 < tokens@.len(),
        tokens.deep_view()[i0 as int] == "description"@,
    ensures
        (j as int, final(result)@) == parse_step(tokens.deep_view(), i0 as int, old(result)@),
{
    proof {
        lemma_grammar_words();
    }
    let ghost t = tokens.deep_view();
    let n = tokens.len();
    let mut i = i0 + 1;
    if i >= n {
        return n;
    }
    let first = chars_of(tokens[i].as_str());
    assert(first@ == t[i as int]);
    if first.len() > 0 && (first[0] == '\'' || first[0] == '"') {
        let q = first[0];
        let start = i;
        let mut words_v: Vec<String> = Vec::new();
        let ghost e = quote_end(t, start as int, q);
        while i < n
            invariant_except_break
                quote_end(t, i as int, q) == e,
            invariant
                n == tokens@.len(),
                t == tokens.deep_view(),
                start <= i <= n,
                words_v.deep_view() == t.subrange(start as int, i as int),
            ensures
                i == e,
            decreases n - i,
        {
            let w = chars_of(tokens[i].as_str());
            assert(w@ == t[i as int]);
            let ghost before = words_v.deep_view();
            words_v.push(clone_string(&tokens[i]));
            assert(words_v.deep_view() =~= before.push(t[i as int]));
            assert(t.subrange(start as int, i + 1) =~= t.subrange(start as int, i as int).push(
                t[i as int],
            ));
            if w.len() > 1 && w[w.len() - 1] == q {
                i += 1;
                break;
            }
            i += 1;
        }
        let joined = join_strings(&words_v, " ");
        result.description = Some(trim_char_string(&joined, q));
        assert(result@ =~= parse_step(t, start - 1, old(result)@).1);
        i
    } else {
        result.description = Some(clone_string(&tokens[i]));
        assert(result@ =~= parse_step(t, i - 1, old(result)@).1);
        i + 1
    }
}

/// A keyword that takes one value: `mtu`, `laggproto`, `laggport` or `name`.
fn step_valued(tokens: &Vec<String>, i: usize, result: &mut ParsedIfConfig) -> (j: usize)
    requires
        i < tokens@.len(),
        tokens.deep_view()[i as int] == "mtu"@ || tokens.deep_view()[i as int] == "laggproto"@
            || tokens.deep_view()[i as int] == "laggport"@ || tokens.deep_view()[i as int]
            == "name"@,
    ensures
        (j as int, final(result)@) == parse_step(tokens.deep_view(), i as int, old(result)@),
{
    proof {
        lemma_grammar_words();
    }
    let ghost t = tokens.deep_view();
    let n = tokens.len();
    let k = tokens[i].as_str();
    if i + 1 >= n {
        return i + 1;
    }
    let v = &tokens[i + 1];
    if str_eq(k, "mtu") {
        result.mtu = parse_u32(v.as_str());
    } else if str_eq(k, "laggproto") {
        result.lagg_proto = Some(clone_string(v));
    } else if str_eq(k, "laggport") {
        let ghost before = result.lagg_ports.deep_view();
        result.lagg_ports.push(clone_string(v));
        assert(result.lagg_ports.deep_view() =~= before.push(t[i + 1]));
    } else {
        result.name = Some(clone_string(v));
    }
    assert(result@ =~= parse_step(t, i as int, old(result)@).1);
    i + 2
}

/// One step of the grammar at token `i`.
fn parse_one(tokens: &Vec<String>, i: usize, result: &mut ParsedIfConfig) -> (j: usize)
    requires
        i < tokens@.len(),
    ensures
        (j as int, final(result)@) == parse_step(tokens.deep_view(), i as int, old(result)@),
{
    proof {
        lemma_grammar_words();
    }
    let ghost t = tokens.deep_view();
    let n = tokens.len();
    let tok = tokens[i].as_str();
    assert(t[i as int] == tok@);
    if str_eq(tok, "inet") {
        step_inet(tokens, i, result)
    } else if str_eq(tok, "inet6") {
        step_inet6(tokens, i, result)
    } else if str_eq(tok, "up") {
        result.is_up = true;
        assert(result@ =~= parse_step(t, i as int, old(result)@).1);
        i + 1
    } else if str_eq(tok, "down") {
        result.is_up = false;
        assert(result@ =~= parse_step(t, i as int, old(result)@).1);
        i + 1
    } else if str_eq(tok, "addm") {
        step_addm(tokens, i, result)
    } else if str_eq(tok, "deletem") {
        step_deletem(tokens, i, result)
    } else if str_eq(tok, "description") {
        step_description(tokens, i, result)
    } else if str_eq(tok, "mtu") || str_eq(tok, "laggproto") || str_eq(tok, "laggport") || str_eq(
        tok,
        "name",
    ) {
        step_valued(tokens, i, result)
    } else if str_eq(tok, "DHCP") || str_eq(tok, "dhcp") {
        result.ipv4 = Some(owned("DHCP"));
        assert(result@ =~= parse_step(t, i as int, old(result)@).1);
        i + 1
    } else if str_eq(tok, "SYNCDHCP") || str_eq(tok, "syncdhcp") {
        result.ipv4 = Some(owned("SYNCDHCP"));
        assert(result@ =~= parse_step(t, i as int, old(result)@).1);
        i + 1
    } else {
        let ghost before = result.options_tokens.deep_view();
        result.options_tokens.push(owned(tok));
        assert(result.options_tokens.deep_view() =~= before.push(t[i as int]));
        assert(result@ =~= parse_step(t, i as int, old(result)@).1);
        i + 1
    }
}

/// Parse an ifconfig value string into structured tokens.
pub fn parse_ifconfig_tokens(value: &str) -> (r: ParsedIfConfig)
    ensures
        r@ == parse_ifconfig_spec(value@),
{
    let tokens = split_ws(value);
    let ghost t = tokens.deep_view();
    let n = tokens.len();
    let mut result = ParsedIfConfig::new();
    let mut i: usize = 0;
    while i < n
        invariant
            n == tokens@.len(),
            t == tokens.deep_view(),
            i <= n,
            parse_from(t, i as int, result@) == parse_from(t, 0, empty_parsed()),
        decreases n - i,
    {
        let ghost i0 = i as int;
        let ghost p0 = result@;
        i = parse_one(&tokens, i, &mut result);
        proof {
            lemma_step_advances(t, i0, p0);
            lemma_parse_from_unfold(t, i0, p0);
        }
    }
    if result.ipv4.is_none() && result.extra_inets.len() > 0 {
        let a = clone_string(&result.extra_inets[0].address);
        let m = match &result.extra_inets[0].netmask {
            Some(x) => Some(clone_string(x)),
            None => None,
        };
        result.ipv4 = Some(a);
        result.ipv4_netmask = m;
    }
    assert(result@ =~= promote_primary(parse_from(t, 0, empty_parsed())));
    result
}

/// Every step consumes at least one token and stays within the value.
proof fn lemma_step_advances(t: Seq<Seq<char>>, i: int, p: ParsedView)
    requires
        0 <= i < t.len(),
    ensures
        i < parse_step(t, i, p).0 <= t.len(),
{
    let tok = t[i];
    if tok == "addm"@ {
        lemma_addm_bounds(t, i + 1, p.bridge_members);
    } else if tok == "deletem"@ {
        lemma_deletem_bounds(t, i + 1, p.bridge_members);
    } else if tok == "description"@ && i + 1 < t.len() {
        lemma_quote_end_bounds(t, i + 1, '\'');
        lemma_quote_end_bounds(t, i + 1, '"');
    }
}

proof fn lemma_addm_bounds(t: Seq<Seq<char>>, k: int, m: Seq<Seq<char>>)
    requires
        0 <= k <= t.len(),
    ensures
        k <= addm_run(t, k, m).0 <= t.len(),
    decreases t.len() - k,
{
    if k < t.len() && !ifconfig_keyword_spec(t[k]) {
        lemma_addm_bounds(t, k + 1, if m.contains(t[k]) { m } else { m.push(t[k]) });
    }
}

proof fn lemma_deletem_bounds(t: Seq<Seq<char>>, k: int, m: Seq<Seq<char>>)
    requires
        0 <= k <= t.len(),
    ensures
        k <= deletem_run(t, k, m).0 <= t.len(),
    decreases t.len() - k,
{
    if k < t.len() && !ifconfig_keyword_spec(t[k]) {
        lemma_deletem_bounds(t, k + 1, remove_all(m, t[k]));
    }
}

proof fn lemma_quote_end_bounds(t: Seq<Seq<char>>, k: int, q: char)
    requires
        0 <= k < t.len(),
    ensures
        k < quote_end(t, k, q) <= t.len(),
    decreases t.len() - k,
{
    if !(t[k].len() > 1 && t[k].last() == q) {
        if k + 1 < t.len() {
            lemma_quote_end_bounds(t, k + 1, q);
        } else {
            assert(quote_end(t, k + 1, q) == t.len());
        }
    }
}

// ─── The `name <X>` directive ──────────────────────────────────────────────

/// Tokens of `t` from `i` with every `name <X>` pair removed, and the last
/// `<X>` seen.
pub open spec fn strip_name_from(
    t: Seq<Seq<char>>,
    i: int,
    kept: Seq<Seq<char>>,
    name: Option<Seq<char>>,
) -> (Seq<Seq<char>>, Option<Seq<char>>)
    decreases t.len() - i,
{
    if i < 0 || i >= t.len() {
        (kept, name)
    } else if t[i] == "name"@ {
        if i + 1 < t.len() {
            strip_name_from(t, i + 2, kept, Some(t[i + 1]))
        } else {
            (kept, name)
        }
    } else {
        strip_name_from(t, i + 1, kept.push(t[i]), name)
    }
}

pub open spec fn strip_name_spec(options: Seq<char>) -> (Seq<char>, Option<Seq<char>>) {
    let r = strip_name_from(words(options), 0, seq![], None);
    (join(r.0, " "@), r.1)
}

/// Whitespace-free tokens, none of them `name`.
spec fn clean_tokens(ts: Seq<Seq<char>>) -> bool {
    forall|k: int| 0 <= k < ts.len() ==> is_word(#[trigger] ts[k]) && ts[k] != "name"@
}

proof fn lemma_strip_clean(t: Seq<Seq<char>>, i: int, kept: Seq<Seq<char>>, name: Option<Seq<char>>)
    requires
        forall|k: int| 0 <= k < t.len() ==> is_word(#[trigger] t[k]),
        clean_tokens(kept),
    ensures
        clean_tokens(strip_name_from(t, i, kept, name).0),
    decreases t.len() - i,
{
    if i < 0 || i >= t.len() {
    } else if t[i] == "name"@ {
        if i + 1 < t.len() {
            lemma_strip_clean(t, i + 2, kept, Some(t[i + 1]));
        }
    } else {
        let k2 = kept.push(t[i]);
        assert(is_word(t[i]));
        assert forall|k: int| 0 <= k < k2.len() implies is_word(#[trigger] k2[k]) && k2[k] != "name"@ by {
            if k < kept.len() {
                assert(k2[k] == kept[k]);
            }
        }
        lemma_strip_clean(t, i + 1, k2, name);
        assert(strip_name_from(t, i, kept, name) == strip_name_from(t, i + 1, k2, name));
    }
}

proof fn lemma_strip_none(t: Seq<Seq<char>>, i: int, kept: Seq<Seq<char>>, name: Option<Seq<char>>)
    requires
        0 <= i <= t.len(),
        forall|k: int| 0 <= k < t.len() ==> #[trigger] t[k] != "name"@,
    ensures
        strip_name_from(t, i, kept, name) == (kept + t.skip(i), name),
    decreases t.len() - i,
{
    if i >= t.len() {
        assert(kept + t.skip(i) =~= kept);
    } else {
        lemma_strip_none(t, i + 1, kept.push(t[i]), name);
        assert(kept.push(t[i]) + t.skip(i + 1) =~= kept + t.skip(i));
    }
}

/// Stripping the `name` directive leaves options without one, so a second
/// strip changes nothing and finds no name; options that hold no `name`
/// token only have their whitespace normalized to single spaces.
pub proof fn lemma_strip_name_idempotent(s: Seq<char>)
    ensures
        ({
            let (c, n) = strip_name_spec(s);
            &&& !words(c).contains("name"@)
            &&& strip_name_spec(c) == (c, None::<Seq<char>>)
            &&& (!words(s).contains("name"@) ==> n is None && c == join(words(s), " "@))
        }),
{
    let t = words(s);
    crate::text::lemma_words_are_words(s);
    lemma_strip_clean(t, 0, seq![], None);
    let r = strip_name_from(t, 0, seq![], None);
    assert(forall|k: int| 0 <= k < r.0.len() ==> is_word(#[trigger] r.0[k]));
    let c = join(r.0, " "@);
    crate::text::lemma_words_join(r.0);
    assert(words(c) == r.0);
    assert(!r.0.contains("name"@));
    assert forall|k: int| 0 <= k < r.0.len() implies #[trigger] r.0[k] != "name"@ by {}
    lemma_strip_none(r.0, 0, seq![], None);
    assert(seq![] + r.0.skip(0) =~= r.0);
    if !t.contains("name"@) {
        assert forall|k: int| 0 <= k < t.len() implies #[trigger] t[k] != "name"@ by {
            if t[k] == "name"@ {
                assert(t.contains(t[k]));
            }
        }
        lemma_strip_none(t, 0, seq![], None);
        assert(seq![] + t.skip(0) =~= t);
    }
}

/// Remove a `name <X>` directive from an options string, returning the
/// cleaned options and the extracted name (if any).
pub fn strip_name_directive(options: &str) -> (r: (String, Option<String>))
    ensures
        (r.0@, r.1.deep_view()) == strip_name_spec(options@),
{
    let tokens = split_ws(options);
    let ghost t = tokens.deep_view();
    let n = tokens.len();
    let mut cleaned: Vec<String> = Vec::new();
    let mut name: Option<String> = None;
    assert(cleaned.deep_view() =~= Seq::<Seq<char>>::empty());
    let mut i: usize = 0;
    while i < n
        invariant
            n == tokens@.len(),
            t == tokens.deep_view(),
            i <= n,
            strip_name_from(t, i as int, cleaned.deep_view(), name.deep_view()) == strip_name_from(
                t,
                0,
                seq![],
                None,
            ),
        decreases n - i,
    {
        assert(t[i as int] == tokens@[i as int]@);
        if str_eq(tokens[i].as_str(), "name") {
            i += 1;
            if i < n {
                name = Some(clone_string(&tokens[i]));
                i += 1;
            } else {
                i = n;
            }
        } else {
            let ghost before = cleaned.deep_view();
            cleaned.push(clone_string(&tokens[i]));
            assert(cleaned.deep_view() =~= before.push(t[i as int]));
            i += 1;
        }
    }
    (join_strings(&cleaned, " "), name)
}

// ─── Building values from structured config ────────────────────────────────

/// `prefix` followed by each item's trimmed text, for items not blank.
pub open spec fn prefixed_nonblank(items: Seq<Seq<char>>, prefix: Seq<char>) -> Seq<Seq<char>>
    decreases items.len(),
{
    if items.len() == 0 {
        seq![]
    } else {
        let r = prefixed_nonblank(items.drop_last(), prefix);
        let t = trim(items.last());
        if t.len() > 0 {
            r.push(prefix + t)
        } else {
            r
        }
    }
}

/// The trimmed text of an optional value, when it is not blank.
pub open spec fn opt_nonblank(o: Option<Seq<char>>) -> Option<Seq<char>> {
    match o {
        Some(x) => if trim(x).len() > 0 {
            Some(trim(x))
        } else {
            None
        },
        None => None,
    }
}

/// `DHCP` or `SYNCDHCP`, in any letter case.
pub open spec fn is_dhcp_word(s: Seq<char>) -> bool {
    eq_ignore_case(s, "DHCP"@) || eq_ignore_case(s, "SYNCDHCP"@)
}

pub open spec fn opt_part(o: Option<Seq<char>>, prefix: Seq<char>) -> Seq<Seq<char>> {
    match opt_nonblank(o) {
        Some(x) => seq![prefix + x],
        None => seq![],
    }
}

pub open spec fn ipv4_part(c: IfaceCfgView) -> Seq<Seq<char>> {
    match opt_nonblank(c.ipv4) {
        Some(ip) => if is_dhcp_word(ip) {
            seq![ip]
        } else {
            seq![
                "inet "@ + ip + match opt_nonblank(c.ipv4_netmask) {
                    Some(nm) => " netmask "@ + nm,
                    None => seq![],
                },
            ]
        },
        None => seq![],
    }
}

/// The parts of the primary value, in the order rc.d needs them.
pub open spec fn primary_parts(c: IfaceCfgView) -> Seq<Seq<char>> {
    opt_part(c.lagg_proto, "laggproto "@) + prefixed_nonblank(c.lagg_ports, "laggport "@)
        + ipv4_part(c) + prefixed_nonblank(c.bridge_members, "addm "@) + match c.mtu {
        Some(m) => if m > 0 {
            seq!["mtu "@ + dec(m as nat)]
        } else {
            seq![]
        },
        None => seq![],
    } + match opt_nonblank(c.description) {
        Some(d) => seq!["description '"@ + d + "'"@],
        None => seq![],
    } + if trim(c.options).len() > 0 {
        seq![trim(c.options)]
    } else {
        seq![]
    } + if c.is_up {
        seq!["up"@]
    } else {
        seq![]
    }
}

/// The primary `ifconfig_<name>` value of a configuration.
pub open spec fn primary_value_spec(c: IfaceCfgView) -> Seq<char> {
    join(primary_parts(c), " "@)
}

spec fn up_tokens(up: bool) -> Seq<Seq<char>> {
    if up {
        seq!["up"@]
    } else {
        seq![]
    }
}

spec fn mtu_tokens(mtu: Option<u32>) -> Seq<Seq<char>> {
    match mtu {
        Some(m) => if m > 0 {
            seq!["mtu"@, dec(m as nat)]
        } else {
            seq![]
        },
        None => seq![],
    }
}

/// `addm <member>` for each member, in order.
spec fn addm_tokens(ms: Seq<Seq<char>>) -> Seq<Seq<char>>
    decreases ms.len(),
{
    if ms.len() == 0 {
        seq![]
    } else {
        seq!["addm"@, ms[0]] + addm_tokens(ms.drop_first())
    }
}

proof fn lemma_addm_tokens_push(ms: Seq<Seq<char>>, x: Seq<char>)
    ensures
        addm_tokens(ms.push(x)) == addm_tokens(ms) + seq!["addm"@, x],
        addm_tokens(ms).len() == 2 * ms.len(),
    decreases ms.len(),
{
    if ms.len() == 0 {
        let one = ms.push(x);
        assert(one.drop_first() =~= Seq::<Seq<char>>::empty());
        assert(one[0] == x);
        assert(addm_tokens(one.drop_first()) == Seq::<Seq<char>>::empty());
        assert(addm_tokens(one) == seq!["addm"@, one[0]] + addm_tokens(one.drop_first()));
        assert(addm_tokens(ms) == Seq::<Seq<char>>::empty());
        assert(addm_tokens(one) =~= addm_tokens(ms) + seq!["addm"@, x]);
    } else {
        lemma_addm_tokens_push(ms.drop_first(), x);
        assert(ms.push(x).drop_first() =~= ms.drop_first().push(x));
        assert(ms.push(x)[0] == ms[0]);
        assert(addm_tokens(ms.push(x)) =~= addm_tokens(ms) + seq!["addm"@, x]);
    }
}

proof fn lemma_word_literal(w: Seq<char>)
    requires
        w.len() > 0,
        forall|k: int| 0 <= k < w.len() ==> 'a' <= #[trigger] w[k] <= 'z',
    ensures
        is_word(w),
        words(w) == seq![w],
{
    assert forall|k: int| 0 <= k < w.len() implies !crate::text::is_ws(#[trigger] w[k]) by {}
    crate::text::lemma_words_word(w);
}

proof fn lemma_two_words(a: Seq<char>, b: Seq<char>)
    requires
        is_word(a),
        is_word(b),
    ensures
        words(a + " "@ + b) == seq![a, b],
{
    crate::text::lemma_words_word(a);
    crate::text::lemma_words_word(b);
    crate::text::lemma_words_concat(a, b);
}

proof fn lemma_addm_parts(ms: Seq<Seq<char>>)
    requires
        forall|k: int| 0 <= k < ms.len() ==> is_word(#[trigger] ms[k]),
    ensures
        crate::text::words_of_parts(prefixed_nonblank(ms, "addm "@)) == addm_tokens(ms),
    decreases ms.len(),
{
    reveal_strlit("addm ");
    reveal_strlit("addm");
    reveal_strlit(" ");
    if ms.len() == 0 {
        assert(addm_tokens(ms) == Seq::<Seq<char>>::empty());
    } else {
        let prev = ms.drop_last();
        assert forall|k: int| 0 <= k < prev.len() implies is_word(#[trigger] prev[k]) by {
            assert(prev[k] == ms[k]);
        }
        lemma_addm_parts(prev);
        let m = ms.last();
        assert(is_word(m)) by {
            assert(m == ms[ms.len() - 1]);
        }
        crate::text::lemma_trim_word(m);
        let addm: Seq<char> = "addm"@;
        lemma_word_literal(addm);
        lemma_two_words(addm, m);
        assert("addm "@ + m =~= addm + " "@ + m);
        let pn = prefixed_nonblank(ms, "addm "@);
        assert(pn == prefixed_nonblank(prev, "addm "@).push("addm "@ + m));
        assert(pn.drop_last() =~= prefixed_nonblank(prev, "addm "@));
        assert(crate::text::words_of_parts(pn) == crate::text::words_of_parts(pn.drop_last()) + words(pn.last()));
        lemma_addm_tokens_push(prev, m);
        assert(prev.push(m) =~= ms);
    }
}

/// The tokens of a primary value with an address, members, an MTU and the
/// up state, and nothing else.
#[verifier::spinoff_prover]
proof fn lemma_primary_tokens(c: IfaceCfgView, ip: Seq<char>, nm: Seq<char>)
    requires
        c.ipv4 == Some(ip),
        c.ipv4_netmask == Some(nm),
        is_word(ip),
        is_word(nm),
        !is_dhcp_word(ip),
        c.lagg_proto is None,
        c.lagg_ports.len() == 0,
        forall|k: int| 0 <= k < c.bridge_members.len() ==> is_word(#[trigger] c.bridge_members[k]),
        c.description is None,
        trim(c.options).len() == 0,
    ensures
        words(primary_value_spec(c)) == seq!["inet"@, ip, "netmask"@, nm] + addm_tokens(c.bridge_members)
            + (mtu_tokens(c.mtu) + up_tokens(c.is_up)),
{
    reveal_strlit("inet ");
    reveal_strlit(" netmask ");
    reveal_strlit("inet");
    reveal_strlit("netmask");
    reveal_strlit("up");
    reveal_strlit("mtu ");
    reveal_strlit("mtu");
    reveal_strlit(" ");
    crate::text::lemma_trim_word(ip);
    crate::text::lemma_trim_word(nm);
    let x = "inet "@ + ip + " netmask "@ + nm;
    assert(opt_nonblank(c.ipv4) == Some(ip));
    assert(opt_nonblank(c.ipv4_netmask) == Some(nm));
    assert("inet "@ + ip + (" netmask "@ + nm) =~= x);
    assert(ipv4_part(c) == seq!["inet "@ + ip + (" netmask "@ + nm)]);
    assert(prefixed_nonblank(c.lagg_ports, "laggport "@) == Seq::<Seq<char>>::empty());
    let pn = prefixed_nonblank(c.bridge_members, "addm "@);
    let mp: Seq<Seq<char>> = match c.mtu {
        Some(m) => if m > 0 {
            seq!["mtu "@ + dec(m as nat)]
        } else {
            seq![]
        },
        None => seq![],
    };
    let upp: Seq<Seq<char>> = if c.is_up {
        seq!["up"@]
    } else {
        seq![]
    };
    let parts = primary_parts(c);
    assert(parts =~= seq![x] + pn + mp + upp);
    crate::text::lemma_words_join_parts(parts);
    crate::text::lemma_words_of_parts_add(seq![x] + pn + mp, upp);
    crate::text::lemma_words_of_parts_add(seq![x] + pn, mp);
    crate::text::lemma_words_of_parts_add(seq![x], pn);
    let inet: Seq<char> = "inet"@;
    let netmask: Seq<char> = "netmask"@;
    lemma_word_literal(inet);
    lemma_word_literal(netmask);
    lemma_two_words(netmask, nm);
    crate::text::lemma_words_concat(ip, netmask + " "@ + nm);
    crate::text::lemma_words_word(ip);
    crate::text::lemma_words_concat(inet, ip + " "@ + (netmask + " "@ + nm));
    assert(x =~= inet + " "@ + (ip + " "@ + (netmask + " "@ + nm)));
    assert(crate::text::words_of_parts(seq![x]) == crate::text::words_of_parts(seq![x].drop_last()) + words(x));
    assert(crate::text::words_of_parts(seq![x].drop_last()) == Seq::<Seq<char>>::empty());
    assert(crate::text::words_of_parts(seq![x]) =~= words(x));
    assert(words(x) =~= seq![inet, ip, netmask, nm]);
    lemma_addm_parts(c.bridge_members);
    match c.mtu {
        Some(m) => if m > 0 {
            let d = dec(m as nat);
            crate::num::lemma_dec_digits(m as nat);
            assert(is_word(d)) by {
                assert forall|k: int| 0 <= k < d.len() implies !crate::text::is_ws(#[trigger] d[k]) by {
                    assert(crate::text::is_digit(d[k]));
                }
            }
            let mtu: Seq<char> = "mtu"@;
            lemma_word_literal(mtu);
            lemma_two_words(mtu, d);
            assert("mtu "@ + d =~= mtu + " "@ + d);
            assert(mp.drop_last() =~= Seq::<Seq<char>>::empty());
            assert(crate::text::words_of_parts(mp.drop_last()) == Seq::<Seq<char>>::empty());
            assert(crate::text::words_of_parts(mp) == crate::text::words_of_parts(mp.drop_last()) + words(mp.last()));
            assert(crate::text::words_of_parts(mp) =~= words(mp.last()));
            assert(crate::text::words_of_parts(mp) =~= mtu_tokens(c.mtu));
        } else {
            assert(crate::text::words_of_parts(mp) =~= mtu_tokens(c.mtu));
        },
        None => {
            assert(crate::text::words_of_parts(mp) =~= mtu_tokens(c.mtu));
        },
    }
    if c.is_up {
        let up: Seq<char> = "up"@;
        lemma_word_literal(up);
        assert(upp.drop_last() =~= Seq::<Seq<char>>::empty());
        assert(crate::text::words_of_parts(upp.drop_last()) == Seq::<Seq<char>>::empty());
        assert(crate::text::words_of_parts(upp) == crate::text::words_of_parts(upp.drop_last()) + words(upp.last()));
        assert(crate::text::words_of_parts(upp) =~= words(upp.last()));
    }
    assert(crate::text::words_of_parts(upp) =~= up_tokens(c.is_up));
    assert(words(primary_value_spec(c)) =~= seq![inet, ip, netmask, nm] + addm_tokens(c.bridge_members)
        + (mtu_tokens(c.mtu) + up_tokens(c.is_up)));
}

/// The member run: each `addm <member>` adds its member.
proof fn lemma_parse_members(pre: Seq<Seq<char>>, ms: Seq<Seq<char>>, rest: Seq<Seq<char>>, p: ParsedView)
    requires
        rest.len() == 0 || ifconfig_keyword_spec(rest[0]),
        forall|i: int| 0 <= i < ms.len() ==> !ifconfig_keyword_spec(#[trigger] ms[i]),
        forall|a: int, b: int|
            0 <= a < b < (p.bridge_members + ms).len() ==> (p.bridge_members + ms)[a] != (p.bridge_members
                + ms)[b],
    ensures
        ({
            let t = pre + addm_tokens(ms) + rest;
            parse_from(t, pre.len() as int, p) == parse_from(
                t,
                (pre.len() + 2 * ms.len()) as int,
                ParsedView { bridge_members: p.bridge_members + ms, ..p },
            )
        }),
    decreases ms.len(),
{
    reveal_strlit("addm");
    reveal_strlit("inet");
    reveal_strlit("inet6");
    reveal_strlit("up");
    reveal_strlit("down");
    let t = pre + addm_tokens(ms) + rest;
    if ms.len() == 0 {
        assert(p.bridge_members + ms =~= p.bridge_members);
        assert(ParsedView { bridge_members: p.bridge_members + ms, ..p } == p);
    } else {
        let i = pre.len() as int;
        let m = ms[0];
        let ms2 = ms.drop_first();
        lemma_addm_tokens_push(ms2, m);
        assert(addm_tokens(ms) == seq!["addm"@, m] + addm_tokens(ms2));
        let pre2 = pre + seq!["addm"@, m];
        assert(t =~= pre2 + addm_tokens(ms2) + rest);
        assert(t[i] == "addm"@);
        assert(t[i + 1] == m);
        assert("addm"@.len() == 4 && "inet6"@.len() == 5 && "up"@.len() == 2);
        assert(t[i] != "inet"@ && t[i] != "down"@) by {
            assert("addm"@[0] != "inet"@[0]);
            assert("addm"@[0] != "down"@[0]);
        }
        assert(!ifconfig_keyword_spec(m)) by {
            assert(ms[0] == m);
        }
        let all = p.bridge_members + ms;
        let bl = p.bridge_members.len() as int;
        assert(all[bl] == m);
        assert(!p.bridge_members.contains(m)) by {
            if p.bridge_members.contains(m) {
                let q = choose|q: int| 0 <= q < p.bridge_members.len() && p.bridge_members[q] == m;
                assert(all[q] == p.bridge_members[q]);
            }
        }
        let next = p.bridge_members.push(m);
        if ms2.len() > 0 {
            lemma_addm_tokens_push(ms2.drop_first(), ms2[0]);
            assert(addm_tokens(ms2) == seq!["addm"@, ms2[0]] + addm_tokens(ms2.drop_first()));
            assert(t[i + 2] == "addm"@);
        } else {
            assert(addm_tokens(ms2) == Seq::<Seq<char>>::empty());
            if rest.len() > 0 {
                assert(t[i + 2] == rest[0]);
            } else {
                assert(i + 2 == t.len());
            }
        }
        assert(addm_run(t, i + 2, next) == (i + 2, next));
        assert(addm_run(t, i + 1, p.bridge_members) == (i + 2, next));
        let p2 = ParsedView { bridge_members: next, ..p };
        assert(parse_step(t, i, p) == (i + 2, p2));
        assert(parse_from(t, i, p) == parse_from(t, i + 2, p2));
        assert(next + ms2 =~= all);
        assert forall|k: int| 0 <= k < ms2.len() implies !ifconfig_keyword_spec(#[trigger] ms2[k]) by {
            assert(ms2[k] == ms[k + 1]);
        }
        lemma_parse_members(pre2, ms2, rest, p2);
        assert(ParsedView { bridge_members: next + ms2, ..p2 } == ParsedView { bridge_members: all, ..p });
    }
}

/// The grammar run over tokens already split.
spec fn parse_ifconfig_spec_tokens(t: Seq<Seq<char>>) -> ParsedView {
    promote_primary(parse_from(t, 0, empty_parsed()))
}

#[verifier::spinoff_prover]
proof fn lemma_primary_parse(ip: Seq<char>, nm: Seq<char>, ms: Seq<Seq<char>>, mtu: Option<u32>, is_up: bool)
    requires
        !ip.contains('/'),
        !is_dhcp_word(ip),
        forall|i: int| 0 <= i < ms.len() ==> !ifconfig_keyword_spec(#[trigger] ms[i]),
        forall|a: int, b: int| 0 <= a < b < ms.len() ==> ms[a] != ms[b],
        mtu != Some(0u32),
    ensures
        ({
            let p = parse_ifconfig_spec_tokens(
                seq!["inet"@, ip, "netmask"@, nm] + addm_tokens(ms) + (mtu_tokens(mtu) + up_tokens(is_up)),
            );
            &&& p.ipv4 == Some(ip) && p.ipv4_netmask == Some(nm) && p.is_up == is_up
            &&& p.bridge_members == ms && p.mtu == mtu
            &&& p.extra_inets.len() == 1 && p.name is None && p.options_tokens.len() == 0
        }),
{
    reveal_strlit("inet");
    reveal_strlit("inet6");
    reveal_strlit("netmask");
    reveal_strlit("up");
    reveal_strlit("down");
    reveal_strlit("addm");
    reveal_strlit("deletem");
    reveal_strlit("mtu");
    reveal_strlit("dhcp");
    reveal_strlit("DHCP");
    reveal_strlit("syncdhcp");
    reveal_strlit("SYNCDHCP");
    let head = seq!["inet"@, ip, "netmask"@, nm];
    let a = addm_tokens(ms);
    let rest = mtu_tokens(mtu) + up_tokens(is_up);
    let t = head + a + rest;
    lemma_addm_tokens_push(ms, nm);
    assert(a.len() == 2 * ms.len());
    let q: int = 4 + 2 * ms.len() as int;
    assert(t[0] == "inet"@ && t[1] == ip && t[2] == "netmask"@ && t[3] == nm);
    assert(!eq_ignore_case(ip, "dhcp"@)) by {
        if eq_ignore_case(ip, "dhcp"@) {
            assert forall|k: int| 0 <= k < ip.len() implies crate::text::ascii_lower(ip[k])
                == crate::text::ascii_lower(#[trigger] "DHCP"@[k]) by {
                assert(crate::text::ascii_lower(ip[k]) == crate::text::ascii_lower("dhcp"@[k]));
            }
        }
    }
    assert(!eq_ignore_case(ip, "syncdhcp"@)) by {
        if eq_ignore_case(ip, "syncdhcp"@) {
            assert forall|k: int| 0 <= k < ip.len() implies crate::text::ascii_lower(ip[k])
                == crate::text::ascii_lower(#[trigger] "SYNCDHCP"@[k]) by {
                assert(crate::text::ascii_lower(ip[k]) == crate::text::ascii_lower("syncdhcp"@[k]));
            }
        }
    }
    crate::text::lemma_find_char_facts(ip, '/');
    assert(find_char(ip, '/') is None) by {
        if let Some(k) = find_char(ip, '/') {
            assert(ip.contains(ip[k]));
        }
    }
    assert(inet_addr(ip) == (ip, None::<Seq<char>>));
    let p0 = empty_parsed();
    let p1 = ParsedView { extra_inets: seq![(ip, Some(nm))], ..p0 };
    assert(p0.extra_inets.push((ip, Some(nm))) =~= p1.extra_inets);
    assert(parse_step(t, 0, p0) == (4int, p1));
    assert(parse_from(t, 0, p0) == parse_from(t, 4, p1));
    if rest.len() > 0 {
        assert(rest[0] == "mtu"@ || rest[0] == "up"@);
        assert(ifconfig_keyword_spec(rest[0]));
    }
    assert(p1.bridge_members + ms =~= ms);
    lemma_parse_members(head, ms, rest, p1);
    let p2 = ParsedView { bridge_members: ms, ..p1 };
    assert(parse_from(t, 4, p1) == parse_from(t, q, p2));
    let r = match mtu {
        Some(m) => {
            let d = dec(m as nat);
            crate::num::lemma_parse_dec(m as nat, u32::MAX as nat);
            assert(t[q] == "mtu"@ && t[q + 1] == d);
            assert("mtu"@.len() == 3 && "inet"@.len() == 4 && "inet6"@.len() == 5 && "up"@.len() == 2);
            assert("down"@.len() == 4 && "addm"@.len() == 4 && "deletem"@.len() == 7);
            assert((m as nat) as u32 == m);
            assert(q + 1 < t.len());
            let p3 = ParsedView { mtu: Some(m), ..p2 };
            assert(parse_step(t, q, p2) == (q + 2, p3));
            assert(parse_from(t, q, p2) == parse_from(t, q + 2, p3));
            q + 2
        },
        None => q,
    };
    let p3 = ParsedView { mtu, ..p2 };
    assert(parse_from(t, q, p2) == parse_from(t, r, p3));
    if is_up {
        assert(t[r] == "up"@);
        assert(t[r] != "inet"@ && t[r] != "inet6"@);
        let p4 = ParsedView { is_up: true, ..p3 };
        assert(parse_step(t, r, p3) == (r + 1, p4));
        assert(r + 1 == t.len());
        assert(parse_from(t, r + 1, p4) == p4);
        assert(parse_from(t, r, p3) == p4);
    } else {
        assert(r == t.len());
        assert(parse_from(t, r, p3) == p3);
    }
}

/// The primary value read back: an address and netmask (not DHCP, the
/// address without a `/prefix`), distinct bridge members that are single
/// tokens and not words of the grammar, a nonzero MTU if any, and the up
/// state, with no LAGG settings, description or extra options, are read
/// back as the same address, netmask, members, MTU and up state; the
/// address is the only `inet` entry and no name or other option appears.
pub proof fn lemma_primary_round_trip(c: IfaceCfgView, ip: Seq<char>, nm: Seq<char>)
    requires
        c.ipv4 == Some(ip),
        c.ipv4_netmask == Some(nm),
        is_word(ip),
        is_word(nm),
        !ip.contains('/'),
        !is_dhcp_word(ip),
        c.lagg_proto is None,
        c.lagg_ports.len() == 0,
        c.description is None,
        trim(c.options).len() == 0,
        c.mtu != Some(0u32),
        forall|k: int| 0 <= k < c.bridge_members.len() ==> is_word(#[trigger] c.bridge_members[k]),
        forall|k: int| 0 <= k < c.bridge_members.len() ==> !ifconfig_keyword_spec(#[trigger] c.bridge_members[k]),
        forall|a: int, b: int| 0 <= a < b < c.bridge_members.len() ==> c.bridge_members[a] != c.bridge_members[b],
    ensures
        ({
            let p = parse_ifconfig_spec(primary_value_spec(c));
            &&& p.ipv4 == Some(ip) && p.ipv4_netmask == Some(nm) && p.is_up == c.is_up
            &&& p.bridge_members == c.bridge_members && p.mtu == c.mtu
            &&& p.extra_inets.len() == 1 && p.name is None && p.options_tokens.len() == 0
        }),
{
    lemma_primary_tokens(c, ip, nm);
    lemma_primary_parse(ip, nm, c.bridge_members, c.mtu, c.is_up);
}

fn push_prefixed_nonblank(parts: &mut Vec<String>, items: &Vec<String>, prefix: &str)
    ensures
        final(parts).deep_view() == old(parts).deep_view() + prefixed_nonblank(items.deep_view(), prefix@),
{
    let ghost start = parts.deep_view();
    let mut k: usize = 0;
    assert(start + prefixed_nonblank(items.deep_view().take(0), prefix@) =~= start);
    while k < items.len()
        invariant
            k <= items@.len(),
            parts.deep_view() == start + prefixed_nonblank(items.deep_view().take(k as int), prefix@),
        decreases items@.len() - k,
    {
        let ghost before = parts.deep_view();
        assert(items.deep_view().take(k + 1).drop_last() =~= items.deep_view().take(k as int));
        let t = trim_str(items[k].as_str());
        if !t.as_str().is_empty() {
            let mut e = owned(prefix);
            push_str(&mut e, t.as_str());
            parts.push(e);
            assert(parts.deep_view() =~= before.push(prefix@ + t@));
        }
        k += 1;
    }
    assert(items.deep_view().take(items@.len() as int) =~= items.deep_view());
}

/// The trimmed value of an optional string when it is not blank.
fn nonblank(o: &Option<String>) -> (r: Option<String>)
    ensures
        r.deep_view() == opt_nonblank(o.deep_view()),
{
    match o {
        Some(x) => {
            let t = trim_str(x.as_str());
            if t.as_str().is_empty() {
                None
            } else {
                Some(t)
            }
        },
        None => None,
    }
}

fn push_opt_part(parts: &mut Vec<String>, o: &Option<String>, prefix: &str)
    ensures
        final(parts).deep_view() == old(parts).deep_view() + opt_part(o.deep_view(), prefix@),
{
    let ghost before = parts.deep_view();
    match nonblank(o) {
        Some(x) => {
            let mut e = owned(prefix);
            push_str(&mut e, x.as_str());
            parts.push(e);
            assert(parts.deep_view() =~= before + opt_part(o.deep_view(), prefix@));
        },
        None => {
            assert(before + opt_part(o.deep_view(), prefix@) =~= before);
        },
    }
}

fn push_part(parts: &mut Vec<String>, p: String)
    ensures
        final(parts).deep_view() == old(parts).deep_view() + seq![p@],
{
    let ghost before = parts.deep_view();
    parts.push(p);
    assert(parts.deep_view() =~= before + seq![p@]);
}

/// Whether a value names DHCP (`DHCP` / `SYNCDHCP`, any case).
pub fn is_dhcp_str(s: &str) -> (r: bool)
    ensures
        r == is_dhcp_word(s@),
{
    eq_ignore_case_str(s, "DHCP") || eq_ignore_case_str(s, "SYNCDHCP")
}

/// Build the primary `ifconfig_<name>` value from structured config.
pub fn build_primary_value(cfg: &IfaceRcConfConfig) -> (r: String)
    ensures
        r@ == primary_value_spec(cfg@),
{
    let ghost c = cfg@;
    let mut parts: Vec<String> = Vec::new();
    let ghost e: Seq<Seq<char>> = seq![];
    assert(parts.deep_view() =~= e);
    push_opt_part(&mut parts, &cfg.lagg_proto, "laggproto ");
    push_prefixed_nonblank(&mut parts, &cfg.lagg_ports, "laggport ");
    let ghost p2 = parts.deep_view();
    match nonblank(&cfg.ipv4) {
        Some(ip) => {
            if is_dhcp_str(ip.as_str()) {
                assert(ipv4_part(c) =~= seq![ip@]);
                push_part(&mut parts, ip);
            } else {
                let mut s = owned("inet ");
                push_str(&mut s, ip.as_str());
                let ghost s1 = s@;
                match nonblank(&cfg.ipv4_netmask) {
                    Some(nm) => {
                        push_str(&mut s, " netmask ");
                        push_str(&mut s, nm.as_str());
                        assert(s@ =~= "inet "@ + ip@ + (" netmask "@ + nm@));
                    },
                    None => {
                        assert(s1 + Seq::<char>::empty() =~= s1);
                    },
                }
                assert(ipv4_part(c) =~= seq![s@]);
                push_part(&mut parts, s);
            }
        },
        None => {
            assert(p2 + ipv4_part(c) =~= p2);
        },
    }
    assert(parts.deep_view() =~= p2 + ipv4_part(c));
    push_prefixed_nonblank(&mut parts, &cfg.bridge_members, "addm ");
    let ghost p4 = parts.deep_view();
    let mut mtu_done = false;
    if let Some(mtu) = cfg.mtu {
        if mtu > 0 {
            let mut s = owned("mtu ");
            push_dec(&mut s, mtu as u64);
            push_part(&mut parts, s);
            mtu_done = true;
        }
    }
    let ghost p5 = parts.deep_view();
    match nonblank(&cfg.description) {
        Some(d) => {
            let mut s = owned("description '");
            push_str(&mut s, d.as_str());
            push_str(&mut s, "'");
            push_part(&mut parts, s);
        },
        None => {},
    }
    let ghost p6 = parts.deep_view();
    let opts = trim_str(cfg.options.as_str());
    if !opts.as_str().is_empty() {
        push_part(&mut parts, opts);
    }
    let ghost p7 = parts.deep_view();
    if cfg.is_up {
        push_part(&mut parts, owned("up"));
    }
    assert(parts.deep_view() =~= primary_parts(c));
    join_strings(&parts, " ")
}

/// `inet <addr>` words of the aliases with a non-blank address, each with
/// ` netmask <mask>` when the mask is not blank.
pub open spec fn alias_words(a: Seq<PairView>) -> Seq<Seq<char>>
    decreases a.len(),
{
    if a.len() == 0 {
        seq![]
    } else {
        let r = alias_words(a.drop_last());
        let addr = trim(a.last().0);
        let nm = trim(a.last().1);
        if addr.len() > 0 {
            r.push(
                "inet "@ + addr + if nm.len() > 0 {
                    " netmask "@ + nm
                } else {
                    seq![]
                },
            )
        } else {
            r
        }
    }
}

/// `inet6 <addr>` words of the entries with a non-blank address, each with
/// ` prefixlen <n>` when the length is not blank.
pub open spec fn v6_words(a: Seq<PairView>) -> Seq<Seq<char>>
    decreases a.len(),
{
    if a.len() == 0 {
        seq![]
    } else {
        let r = v6_words(a.drop_last());
        let addr = trim(a.last().0);
        let pl = trim(a.last().1);
        if addr.len() > 0 {
            r.push(
                "inet6 "@ + addr + if pl.len() > 0 {
                    " prefixlen "@ + pl
                } else {
                    seq![]
                },
            )
        } else {
            r
        }
    }
}

/// One `<kw> <addr>[ <qual_kw> <qual>]` word, or none for a blank address.
fn addr_word(kw: &str, addr: &String, qual_kw: &str, qual: &String) -> (r: Option<String>)
    ensures
        trim(addr@).len() > 0 ==> r.deep_view() == Some(
            kw@ + trim(addr@) + if trim(qual@).len() > 0 {
                qual_kw@ + trim(qual@)
            } else {
                seq![]
            },
        ),
        trim(addr@).len() == 0 ==> r is None,
{
    let a = trim_str(addr.as_str());
    if a.as_str().is_empty() {
        return None;
    }
    let q = trim_str(qual.as_str());
    let mut s = owned(kw);
    push_str(&mut s, a.as_str());
    let ghost s1 = s@;
    if !q.as_str().is_empty() {
        push_str(&mut s, qual_kw);
        push_str(&mut s, q.as_str());
    } else {
        assert(s1 + Seq::<char>::empty() =~= s1);
    }
    Some(s)
}

/// Build the `ifconfig_<name>_aliases` value.
pub fn build_aliases_value(aliases: &Vec<RcIpv4Alias>) -> (r: String)
    ensures
        r@ == join(alias_words(aliases@.map_values(|a: RcIpv4Alias| alias_view(a))), " "@),
{
    let ghost av = aliases@.map_values(|a: RcIpv4Alias| alias_view(a));
    let mut parts: Vec<String> = Vec::new();
    let mut k: usize = 0;
    assert(parts.deep_view() =~= alias_words(av.take(0)));
    while k < aliases.len()
        invariant
            k <= aliases@.len(),
            av == aliases@.map_values(|a: RcIpv4Alias| alias_view(a)),
            parts.deep_view() == alias_words(av.take(k as int)),
        decreases aliases@.len() - k,
    {
        assert(av.take(k + 1).drop_last() =~= av.take(k as int));
        assert(av.take(k + 1).last() == alias_view(aliases@[k as int]));
        let ghost before = parts.deep_view();
        match addr_word("inet ", &aliases[k].address, " netmask ", &aliases[k].netmask) {
            Some(w) => {
                parts.push(w);
                assert(parts.deep_view() =~= before.push(parts.deep_view().last()));
            },
            None => {},
        }
        k += 1;
    }
    assert(av.take(aliases@.len() as int) =~= av);
    join_strings(&parts, " ")
}

/// The `ifconfig_<name>_ipv6` value for an IPv6 mode and static entries.
pub open spec fn ipv6_value_spec(mode: Seq<char>, entries: Seq<PairView>) -> Seq<char> {
    if mode == "slaac"@ {
        "inet6 accept_rtadv"@
    } else if mode == "none"@ {
        seq![]
    } else {
        join(v6_words(entries), " "@)
    }
}

/// Build the `ifconfig_<name>_ipv6` value.
pub fn build_ipv6_value(mode: &str, entries: &Vec<RcIpv6Entry>) -> (r: String)
    ensures
        r@ == ipv6_value_spec(mode@, entries@.map_values(|e: RcIpv6Entry| v6_view(e))),
{
    if str_eq(mode, "slaac") {
        return owned("inet6 accept_rtadv");
    }
    if str_eq(mode, "none") {
        return String::new();
    }
    let ghost ev = entries@.map_values(|e: RcIpv6Entry| v6_view(e));
    let mut parts: Vec<String> = Vec::new();
    let mut k: usize = 0;
    assert(parts.deep_view() =~= v6_words(ev.take(0)));
    while k < entries.len()
        invariant
            k <= entries@.len(),
            ev == entries@.map_values(|e: RcIpv6Entry| v6_view(e)),
            parts.deep_view() == v6_words(ev.take(k as int)),
        decreases entries@.len() - k,
    {
        assert(ev.take(k + 1).drop_last() =~= ev.take(k as int));
        assert(ev.take(k + 1).last() == v6_view(entries@[k as int]));
        let ghost before = parts.deep_view();
        match addr_word("inet6 ", &entries[k].address, " prefixlen ", &entries[k].prefixlen) {
            Some(w) => {
                parts.push(w);
                assert(parts.deep_view() =~= before.push(parts.deep_view().last()));
            },
            None => {},
        }
        k += 1;
    }
    assert(ev.take(entries@.len() as int) =~= ev);
    join_strings(&parts, " ")
}

// ─── Interface name validation ─────────────────────────────────────────────

/// Characters allowed in an interface name: `[a-zA-Z0-9_.]`.
pub open spec fn iface_name_chars(s: Seq<char>) -> bool {
    all_alnum_or(s, "_."@)
}

/// An interface name: 1 to 15 bytes of `[a-zA-Z0-9_.]`.
pub open spec fn iface_name_ok(s: Seq<char>) -> bool {
    s.len() > 0 && crate::text::byte_len(s) <= 15 && iface_name_chars(s)
}

/// Validate an interface name: `^[a-zA-Z0-9_.]+$`, 1–15 bytes.
pub fn validate_iface_name(name: &str) -> (r: ApiResult<()>)
    ensures
        (name@.len() == 0 || crate::text::byte_len(name@) > 15) ==> is_bad_request(
            r,
            "invalid interface name length"@,
        ),
        !(name@.len() == 0 || crate::text::byte_len(name@) > 15) && !iface_name_chars(name@)
            ==> is_bad_request(r, "interface name must match [a-zA-Z0-9_.]+"@),
        r is Ok <==> iface_name_ok(name@),
        r is Ok || crate::error::is_bad(r),
{
    if name.is_empty() || crate::text::bytes_exceed(name, 15) {
        return bad_request("invalid interface name length");
    }
    if !all_alnum_or_str(name, "_.") {
        return bad_request("interface name must match [a-zA-Z0-9_.]+");
    }
    Ok(())
}

// ─── rc.conf keys of one interface ─────────────────────────────────────────

/// `ifconfig_<name><suffix>`.
pub open spec fn iface_key(name: Seq<char>, suffix: Seq<char>) -> Seq<char> {
    "ifconfig_"@ + name + suffix
}

pub fn make_iface_key(name: &str, suffix: &str) -> (r: String)
    ensures
        r@ == iface_key(name@, suffix@),
{
    let mut k = owned("ifconfig_");
    push_str(&mut k, name);
    push_str(&mut k, suffix);
    k
}

pub open spec fn unwrap_or_empty(o: Option<Seq<char>>) -> Seq<char> {
    match o {
        Some(x) => x,
        None => seq![],
    }
}

/// Parsed addresses as rc.conf pairs; a missing qualifier becomes empty.
pub open spec fn rc_pairs(es: Seq<AddrView>) -> Seq<PairView> {
    es.map_values(|e: AddrView| (e.0, unwrap_or_empty(e.1)))
}

/// Fields taken from a parsed primary value; `inet` entries after the
/// first become aliases.
pub open spec fn cfg_from_primary(c: IfaceCfgView, p: ParsedView) -> IfaceCfgView {
    IfaceCfgView {
        is_up: p.is_up,
        ipv4: p.ipv4,
        ipv4_netmask: p.ipv4_netmask,
        bridge_members: p.bridge_members,
        lagg_proto: p.lagg_proto,
        lagg_ports: p.lagg_ports,
        mtu: p.mtu,
        description: p.description,
        options: join(p.options_tokens, " "@),
        name: p.name,
        ipv4_aliases: c.ipv4_aliases + if p.extra_inets.len() > 1 {
            rc_pairs(p.extra_inets.skip(1))
        } else {
            seq![]
        },
        ..c
    }
}

/// The structured configuration that rc.conf holds under `name`.
#[verifier::opaque]
pub open spec fn iface_rc_spec(name: Seq<char>, kv: RcVars) -> IfaceCfgView {
    let c0 = empty_cfg();
    let c1 = match kv.lookup(iface_key(name, seq![])) {
        Some(v) => cfg_from_primary(c0, parse_ifconfig_spec(v)),
        None => c0,
    };
    let c2 = match kv.lookup(iface_key(name, "_aliases"@)) {
        Some(v) => IfaceCfgView {
            ipv4_aliases: c1.ipv4_aliases + rc_pairs(parse_ifconfig_spec(v).extra_inets),
            ..c1
        },
        None => c1,
    };
    match kv.lookup(iface_key(name, "_ipv6"@)) {
        Some(v) => {
            let p = parse_ifconfig_spec(v);
            if p.ipv6_accept_rtadv {
                IfaceCfgView { ipv6_mode: "slaac"@, ..c2 }
            } else {
                IfaceCfgView { ipv6_mode: "static"@, ipv6: c2.ipv6 + rc_pairs(p.inet6s), ..c2 }
            }
        },
        None => c2,
    }
}

fn append_inet_aliases(list: &mut Vec<RcIpv4Alias>, es: &Vec<InetEntry>, from: usize)
    requires
        from <= es@.len(),
    ensures
        final(list)@.map_values(|a: RcIpv4Alias| alias_view(a)) == old(list)@.map_values(
            |a: RcIpv4Alias| alias_view(a),
        ) + rc_pairs(es@.map_values(|e: InetEntry| inet_view(e)).skip(from as int)),
{
    let ghost ev = es@.map_values(|e: InetEntry| inet_view(e));
    let ghost start = old(list)@.map_values(|a: RcIpv4Alias| alias_view(a));
    let mut k = from;
    assert(start + rc_pairs(ev.subrange(from as int, from as int)) =~= start);
    while k < es.len()
        invariant
            from <= k <= es@.len(),
            ev == es@.map_values(|e: InetEntry| inet_view(e)),
            list@.map_values(|a: RcIpv4Alias| alias_view(a)) == start + rc_pairs(
                ev.subrange(from as int, k as int),
            ),
        decreases es@.len() - k,
    {
        let ghost before = list@;
        let a = RcIpv4Alias {
            address: clone_string(&es[k].address),
            netmask: match &es[k].netmask {
                Some(m) => clone_string(m),
                None => String::new(),
            },
        };
        list.push(a);
        assert(list@ == before.push(a));
        assert(list@.map_values(|a: RcIpv4Alias| alias_view(a)) =~= before.map_values(
            |a: RcIpv4Alias| alias_view(a),
        ).push(alias_view(a)));
        assert(rc_pairs(ev.subrange(from as int, k + 1)) =~= rc_pairs(
            ev.subrange(from as int, k as int),
        ).push(alias_view(a)));
        k += 1;
    }
    assert(ev.subrange(from as int, es@.len() as int) =~= ev.skip(from as int));
}

fn append_inet6_entries(list: &mut Vec<RcIpv6Entry>, es: &Vec<Inet6Entry>)
    ensures
        final(list)@.map_values(|e: RcIpv6Entry| v6_view(e)) == old(list)@.map_values(
            |e: RcIpv6Entry| v6_view(e),
        ) + rc_pairs(es@.map_values(|e: Inet6Entry| inet6_view(e))),
{
    let ghost ev = es@.map_values(|e: Inet6Entry| inet6_view(e));
    let ghost start = old(list)@.map_values(|e: RcIpv6Entry| v6_view(e));
    let mut k: usize = 0;
    assert(start + rc_pairs(ev.take(0)) =~= start);
    while k < es.len()
        invariant
            k <= es@.len(),
            ev == es@.map_values(|e: Inet6Entry| inet6_view(e)),
            list@.map_values(|e: RcIpv6Entry| v6_view(e)) == start + rc_pairs(ev.take(k as int)),
        decreases es@.len() - k,
    {
        let ghost before = list@;
        let a = RcIpv6Entry {
            address: clone_string(&es[k].address),
            prefixlen: match &es[k].prefixlen {
                Some(m) => clone_string(m),
                None => String::new(),
            },
        };
        list.push(a);
        assert(list@ == before.push(a));
        assert(list@.map_values(|e: RcIpv6Entry| v6_view(e)) =~= before.map_values(
            |e: RcIpv6Entry| v6_view(e),
        ).push(v6_view(a)));
        assert(rc_pairs(ev.take(k + 1)) =~= rc_pairs(ev.take(k as int)).push(v6_view(a)));
        k += 1;
    }
    assert(ev.take(es@.len() as int) =~= ev);
}

/// Read all `ifconfig_<name>` rc.conf entries and parse into structured config.
pub fn parse_iface_rcconf(name: &str, kv: &RcVars) -> (r: IfaceRcConfConfig)
    ensures
        r@ == iface_rc_spec(name@, *kv),
{
    reveal(iface_rc_spec);
    let mut cfg = IfaceRcConfConfig::default();
    let pk = make_iface_key(name, "");
    let ak = make_iface_key(name, "_aliases");
    let vk = make_iface_key(name, "_ipv6");
    assert(pk@ =~= iface_key(name@, seq![])) by {
        reveal_strlit("");
    }
    let ghost c0 = cfg@;
    if let Some(val) = kv.get(&pk) {
        let parsed = parse_ifconfig_tokens(val.as_str());
        let ghost p = parsed@;
        let options = join_strings(&parsed.options_tokens, " ");
        let ParsedIfConfig {
            is_up,
            ipv4,
            ipv4_netmask,
            extra_inets,
            bridge_members,
            lagg_proto,
            lagg_ports,
            mtu,
            description,
            name: pname,
            ..
        } = parsed;
        cfg.is_up = is_up;
        cfg.ipv4 = ipv4;
        cfg.ipv4_netmask = ipv4_netmask;
        cfg.bridge_members = bridge_members;
        cfg.lagg_proto = lagg_proto;
        cfg.lagg_ports = lagg_ports;
        cfg.mtu = mtu;
        cfg.description = description;
        cfg.options = options;
        cfg.name = pname;
        let ghost ca = cfg@.ipv4_aliases;
        if extra_inets.len() > 1 {
            append_inet_aliases(&mut cfg.ipv4_aliases, &extra_inets, 1);
        } else {
            assert(ca + Seq::<PairView>::empty() =~= ca);
        }
        assert(cfg@ =~= cfg_from_primary(c0, p));
    }
    let ghost c1 = cfg@;
    if let Some(val) = kv.get(&ak) {
        let parsed = parse_ifconfig_tokens(val.as_str());
        append_inet_aliases(&mut cfg.ipv4_aliases, &parsed.extra_inets, 0);
        assert(parsed@.extra_inets.skip(0) =~= parsed@.extra_inets);
        assert(cfg@ =~= IfaceCfgView {
            ipv4_aliases: c1.ipv4_aliases + rc_pairs(parsed@.extra_inets),
            ..c1
        });
    }
    let ghost c2 = cfg@;
    if let Some(val) = kv.get(&vk) {
        let parsed = parse_ifconfig_tokens(val.as_str());
        if parsed.ipv6_accept_rtadv {
            cfg.ipv6_mode = owned("slaac");
        } else {
            cfg.ipv6_mode = owned("static");
            append_inet6_entries(&mut cfg.ipv6, &parsed.inet6s);
        }
        assert(cfg@ =~= match kv.lookup(iface_key(name@, "_ipv6"@)) {
            Some(v) => {
                let p = parse_ifconfig_spec(v);
                if p.ipv6_accept_rtadv {
                    IfaceCfgView { ipv6_mode: "slaac"@, ..c2 }
                } else {
                    IfaceCfgView { ipv6_mode: "static"@, ipv6: c2.ipv6 + rc_pairs(p.inet6s), ..c2 }
                }
            },
            None => c2,
        });
    }
    cfg
}

// ─── Merged live-name / driver-name configuration ──────────────────────────

/// Fields the live-name configuration leaves empty, taken from the legacy
/// driver-name configuration; `up` when either says so.
pub open spec fn fill_from_driver(c: IfaceCfgView, d: IfaceCfgView) -> IfaceCfgView {
    IfaceCfgView {
        ipv4: if c.ipv4 is None { d.ipv4 } else { c.ipv4 },
        ipv4_netmask: if c.ipv4_netmask is None { d.ipv4_netmask } else { c.ipv4_netmask },
        ipv4_aliases: if c.ipv4_aliases.len() == 0 { d.ipv4_aliases } else { c.ipv4_aliases },
        ipv6_mode: if c.ipv6_mode.len() == 0 { d.ipv6_mode } else { c.ipv6_mode },
        ipv6: if c.ipv6.len() == 0 { d.ipv6 } else { c.ipv6 },
        bridge_members: if c.bridge_members.len() == 0 { d.bridge_members } else { c.bridge_members },
        lagg_proto: if c.lagg_proto is None { d.lagg_proto } else { c.lagg_proto },
        lagg_ports: if c.lagg_ports.len() == 0 { d.lagg_ports } else { c.lagg_ports },
        mtu: if c.mtu is None { d.mtu } else { c.mtu },
        description: if c.description is None { d.description } else { c.description },
        options: if c.options.len() == 0 { d.options } else { c.options },
        is_up: c.is_up || d.is_up,
        ..c
    }
}

/// The rename target: an explicit `ifconfig_<driver>_name`, else a stripped
/// `name` directive of the live-name value, else one of the legacy value,
/// else the live name when it is not a default name; none when it equals
/// the driver name.
pub open spec fn merged_name(
    explicit: Option<Seq<char>>,
    own: Option<Seq<char>>,
    legacy: Option<Seq<char>>,
    driver: Seq<char>,
    live: Seq<char>,
) -> Option<Seq<char>> {
    let n = if explicit is Some {
        explicit
    } else if own is Some {
        own
    } else if legacy is Some {
        legacy
    } else if !default_iface_name_spec(driver, live) {
        Some(live)
    } else {
        None
    };
    if n == Some(driver) {
        None
    } else {
        n
    }
}

/// The configuration of interface `live` (created as `driver`) from rc.conf.
pub open spec fn merged_rc_spec(live: Seq<char>, driver: Seq<char>, kv: RcVars) -> IfaceCfgView {
    let own = iface_rc_spec(live, kv);
    let c = if driver != live {
        fill_from_driver(own, iface_rc_spec(driver, kv))
    } else {
        own
    };
    let legacy = if driver != live {
        iface_rc_spec(driver, kv).name
    } else {
        None
    };
    let explicit = opt_nonblank(kv.lookup(iface_key(driver, "_name"@)));
    IfaceCfgView {
        name: merged_name(explicit, own.name, legacy, driver, live),
        interface: live,
        is_bridge: starts_with(driver, "bridge"@),
        is_lagg: starts_with(driver, "lagg"@),
        ..c
    }
}

/// Fill the fields `cfg` leaves empty from the driver-name configuration;
/// returns the driver configuration's rename target.
/// Fill the fields `cfg` leaves empty from the driver-name configuration;
/// also returns the driver configuration's rename target.
fn fill_from_driver_cfg(cfg: IfaceRcConfConfig, drv: IfaceRcConfConfig) -> (r: (IfaceRcConfConfig, Option<String>))
    ensures
        r.0@ == fill_from_driver(cfg@, drv@),
        r.1.deep_view() == drv@.name,
{
    let ghost own = cfg@;
    let ghost d = drv@;
    let IfaceRcConfConfig {
        interface,
        is_bridge,
        is_lagg,
        is_up,
        ipv4,
        ipv4_netmask,
        ipv4_aliases,
        ipv6_mode,
        ipv6,
        bridge_members,
        lagg_proto,
        lagg_ports,
        mtu,
        description,
        options,
        name,
    } = cfg;
    let IfaceRcConfConfig {
        ipv4: d_ipv4,
        ipv4_netmask: d_ipv4_netmask,
        ipv4_aliases: d_ipv4_aliases,
        ipv6_mode: d_ipv6_mode,
        ipv6: d_ipv6,
        bridge_members: d_bridge_members,
        lagg_proto: d_lagg_proto,
        lagg_ports: d_lagg_ports,
        mtu: d_mtu,
        description: d_description,
        options: d_options,
        is_up: d_is_up,
        name: d_name,
        ..
    } = drv;
    let out = IfaceRcConfConfig {
        interface,
        is_bridge,
        is_lagg,
        is_up: is_up || d_is_up,
        ipv4: if ipv4.is_none() { d_ipv4 } else { ipv4 },
        ipv4_netmask: if ipv4_netmask.is_none() { d_ipv4_netmask } else { ipv4_netmask },
        ipv4_aliases: if ipv4_aliases.len() == 0 { d_ipv4_aliases } else { ipv4_aliases },
        ipv6_mode: if ipv6_mode.as_str().is_empty() { d_ipv6_mode } else { ipv6_mode },
        ipv6: if ipv6.len() == 0 { d_ipv6 } else { ipv6 },
        bridge_members: if bridge_members.len() == 0 { d_bridge_members } else { bridge_members },
        lagg_proto: if lagg_proto.is_none() { d_lagg_proto } else { lagg_proto },
        lagg_ports: if lagg_ports.len() == 0 { d_lagg_ports } else { lagg_ports },
        mtu: if mtu.is_none() { d_mtu } else { mtu },
        description: if description.is_none() { d_description } else { description },
        options: if options.as_str().is_empty() { d_options } else { options },
        name,
    };
    assert(out@ =~= fill_from_driver(own, d));
    (out, d_name)
}

/// The rename target from its candidate sources, in priority order.
fn resolve_merged_name(
    explicit: Option<String>,
    own: Option<String>,
    legacy: Option<String>,
    driver: &str,
    live: &str,
) -> (r: Option<String>)
    ensures
        r.deep_view() == merged_name(
            explicit.deep_view(),
            own.deep_view(),
            legacy.deep_view(),
            driver@,
            live@,
        ),
{
    let name = if explicit.is_some() {
        explicit
    } else if own.is_some() {
        own
    } else if legacy.is_some() {
        legacy
    } else if !is_default_iface_name(driver, live) {
        Some(owned(live))
    } else {
        None
    };
    let is_driver = match &name {
        Some(n) => str_eq(n.as_str(), driver),
        None => false,
    };
    if is_driver {
        None
    } else {
        name
    }
}

/// Parse rc.conf config for interface `live_name` whose driver (creation)
/// name is `driver`: the live-name keys are authoritative, the legacy
/// driver-name keys fill what they leave empty, and the rename target is
/// resolved from the `_name` key and `name` directives.
pub fn merge_rcconf(live_name: &str, driver: &str, kv: &RcVars) -> (r: IfaceRcConfConfig)
    ensures
        r@ == merged_rc_spec(live_name@, driver@, *kv),
{
    let mut cfg = parse_iface_rcconf(live_name, kv);
    let ghost own = cfg@;
    let mut legacy_name: Option<String> = None;
    if !str_eq(driver, live_name) {
        let drv = parse_iface_rcconf(driver, kv);
        let (filled, legacy) = fill_from_driver_cfg(cfg, drv);
        cfg = filled;
        legacy_name = legacy;
    }
    let nk = make_iface_key(driver, "_name");
    let explicit = nonblank(&kv.get(&nk));
    let own_name = cfg.name.take();
    cfg.name = resolve_merged_name(explicit, own_name, legacy_name, driver, live_name);
    cfg.interface = owned(live_name);
    cfg.is_bridge = starts_with_str(driver, "bridge");
    cfg.is_lagg = starts_with_str(driver, "lagg");
    assert(cfg@ =~= merged_rc_spec(live_name@, driver@, *kv));
    cfg
}

} // verus!
