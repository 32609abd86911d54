//! Virtual machine requests: the rules a request must meet before a
//! machine, a switch or a datastore is touched.
use vstd::prelude::*;
use crate::error::{ApiError, ApiResult, bad_request, bad_request_owned, is_bad_request};
use crate::netaddr::{ipv4_value, parse_ipv4};
use crate::num::{parse_unsigned, parse_unsigned_str};
use crate::text::{
    all_alnum_or, all_alnum_or_str, all_chars, byte_len, bytes_exceed, chars_of, contains_char,
    is_alnum, is_alnum_char, is_digit, owned, push_str, split_once, split_once_str, starts_with,
    starts_with_str, str_eq, string_from,
};

verus! {

/// Whether to list running machines only.
#[derive(Debug, Clone)]
pub struct ListQuery {
    pub running: bool,
}

/// A machine to create.
#[derive(Debug, Clone)]
pub struct CreateVmBody {
    pub name: String,
    pub template: String,
    pub datastore: Option<String>,
    pub size: Option<String>,
    pub cpu: Option<u32>,
    pub memory: Option<String>,
}

/// Configuration keys to set, by section; each section lists its entries
/// in the order they were received.
#[derive(Debug, Clone)]
pub struct UpdateVmConfigBody {
    pub config: Vec<(String, String)>,
    pub advance: Vec<(String, String)>,
    pub graphics: Vec<(String, String)>,
    pub other_devices: Vec<(String, String)>,
    pub auto_start: Option<bool>,
}

/// A disk to add to a machine.
#[derive(Debug, Clone)]
pub struct AddDiskBody {
    pub disk_type: String,
    pub size: String,
}

/// A virtual switch to create.
#[derive(Debug, Clone)]
pub struct CreateSwitchBody {
    pub name: String,
    pub typ: String,
    pub iface: Option<String>,
    pub vlan: Option<u16>,
    pub bridge: Option<String>,
    pub address: Option<String>,
    pub mtu: Option<u16>,
    pub private: bool,
}

/// Where to initialise the machine store.
#[derive(Debug, Clone)]
pub struct InitBody {
    pub spec: String,
}

/// A datastore to add.
#[derive(Debug, Clone)]
pub struct CreateDatastoreBody {
    pub name: String,
    pub spec: String,
}

// ───────────────────────── names ─────────────────────────

pub open spec fn is_lower(c: char) -> bool {
    'a' <= c && c <= 'z'
}

/// Every character is a lower-case ASCII letter, a digit, or one of `extra`.
pub open spec fn lower_chars_in(s: Seq<char>, extra: Seq<char>) -> bool {
    all_chars(s, |c: char| is_lower(c) || is_digit(c) || extra.contains(c))
}

fn lower_chars_in_exec(s: &str, extra: &str) -> (b: bool)
    ensures
        b == lower_chars_in(s@, extra@),
{
    let v = chars_of(s);
    let mut i: usize = 0;
    while i < v.len()
        invariant
            i <= v@.len(),
            v@ == s@,
            forall|k: int| 0 <= k < i ==> (is_lower(#[trigger] v@[k]) || is_digit(v@[k]) || extra@.contains(v@[k])),
        decreases v@.len() - i,
    {
        let c = v[i];
        if !(('a' <= c && c <= 'z') || ('0' <= c && c <= '9') || contains_char(extra, c)) {
            assert(!(is_lower(s@[i as int]) || is_digit(s@[i as int]) || extra@.contains(s@[i as int])));
            return false;
        }
        i += 1;
    }
    true
}

/// Why `name` is refused as the name of a `kind` of object (a machine, a
/// datastore): 1 to 64 bytes of lower-case letters, digits, `.`, `_`, `-`,
/// starting and ending with a letter or digit.
pub open spec fn lower_name_error(name: Seq<char>, kind: Seq<char>) -> Option<Seq<char>> {
    if name.len() == 0 || byte_len(name) > 64 {
        Some("invalid "@ + kind + " name"@)
    } else if !lower_chars_in(name, "._-"@) {
        Some(
            kind
                + " name may only contain lowercase letters, digits, dots, underscores and dashes"@,
        )
    } else if !is_alnum(name[0]) || !is_alnum(name.last()) {
        Some(kind + " name must start and end with a letter or digit"@)
    } else {
        None
    }
}

fn check_lower_name(name: &str, kind: &str) -> (r: ApiResult<()>)
    ensures
        match lower_name_error(name@, kind@) {
            None => r is Ok,
            Some(m) => is_bad_request(r, m),
        },
{
    if name.is_empty() || bytes_exceed(name, 64) {
        let mut m = owned("invalid ");
        push_str(&mut m, kind);
        push_str(&mut m, " name");
        return bad_request_owned(m);
    }
    if !lower_chars_in_exec(name, "._-") {
        let mut m = owned(kind);
        push_str(
            &mut m,
            " name may only contain lowercase letters, digits, dots, underscores and dashes",
        );
        return bad_request_owned(m);
    }
    let v = chars_of(name);
    if !is_alnum_char(v[0]) || !is_alnum_char(v[v.len() - 1]) {
        let mut m = owned(kind);
        push_str(&mut m, " name must start and end with a letter or digit");
        return bad_request_owned(m);
    }
    Ok(())
}

/// A machine name, by the rules of `vm-bhyve`.
pub fn validate_vm_name(name: &str) -> (r: ApiResult<()>)
    ensures
        match lower_name_error(name@, "VM"@) {
            None => r is Ok,
            Some(m) => is_bad_request(r, m),
        },
{
    check_lower_name(name, "VM")
}

/// A datastore name: the rules of machine names.
pub fn validate_datastore_name(name: &str) -> (r: ApiResult<()>)
    ensures
        match lower_name_error(name@, "datastore"@) {
            None => r is Ok,
            Some(m) => is_bad_request(r, m),
        },
{
    check_lower_name(name, "datastore")
}

/// A switch name: the rules of datastore names, refused with one message.
pub fn validate_switch_name(name: &str) -> (r: ApiResult<()>)
    ensures
        r is Ok <==> lower_name_error(name@, "datastore"@) is None,
        !(r is Ok) ==> is_bad_request(
            r,
            "switch name may only contain lowercase letters, digits, dots, underscores and dashes, and must start and end with a letter or digit"@,
        ),
{
    match validate_datastore_name(name) {
        Ok(()) => Ok(()),
        Err(_) => bad_request(
            "switch name may only contain lowercase letters, digits, dots, underscores and dashes, and must start and end with a letter or digit",
        ),
    }
}

// ───────────────────────── configuration ─────────────────────────

/// A configuration key: 1 to 128 bytes of lower-case letters, digits, `_`.
pub open spec fn config_key_ok(k: Seq<char>) -> bool {
    k.len() > 0 && byte_len(k) <= 128 && lower_chars_in(k, "_"@)
}

/// A configuration value: at most 4096 bytes, no NUL, CR or LF.
pub open spec fn config_value_ok(v: Seq<char>) -> bool {
    byte_len(v) <= 4096 && !v.contains('\0') && !v.contains('\n') && !v.contains('\r')
}

/// Why one entry is refused, if it is.
pub open spec fn entry_error(e: (Seq<char>, Seq<char>)) -> Option<Seq<char>> {
    if !config_key_ok(e.0) {
        Some("invalid VM configuration key: "@ + e.0)
    } else if !config_value_ok(e.1) {
        Some("invalid value for VM configuration key: "@ + e.0)
    } else {
        None
    }
}

/// The error of the first refused entry at or after `i`.
pub open spec fn first_entry_error(c: Seq<(Seq<char>, Seq<char>)>, i: int) -> Option<Seq<char>>
    decreases c.len() - i,
{
    if i < 0 || i >= c.len() {
        None
    } else {
        match entry_error(c[i]) {
            Some(m) => Some(m),
            None => first_entry_error(c, i + 1),
        }
    }
}

/// Why a configuration is refused, if it is: it is empty, it has over 256
/// entries, or the first bad entry in key order.
pub open spec fn vm_config_error(c: Seq<(Seq<char>, Seq<char>)>) -> Option<Seq<char>> {
    if c.len() == 0 {
        Some("VM configuration must not be empty"@)
    } else if c.len() > 256 {
        Some("VM configuration has too many entries"@)
    } else {
        first_entry_error(c, 0)
    }
}

fn entry_error_exec(k: &String, v: &String) -> (r: Option<String>)
    ensures
        match entry_error((k@, v@)) {
            None => r is None,
            Some(m) => r matches Some(x) && x@ == m,
        },
{
    if k.as_str().is_empty() || bytes_exceed(k.as_str(), 128) || !lower_chars_in_exec(k.as_str(), "_") {
        let mut m = owned("invalid VM configuration key: ");
        push_str(&mut m, k.as_str());
        return Some(m);
    }
    if bytes_exceed(v.as_str(), 4096) || contains_char(v.as_str(), '\0') || contains_char(v.as_str(), '\n')
        || contains_char(v.as_str(), '\r') {
        let mut m = owned("invalid value for VM configuration key: ");
        push_str(&mut m, k.as_str());
        return Some(m);
    }
    None
}

/// Check a merged configuration, its entries in key order.
pub fn validate_vm_config(config: &Vec<(String, String)>) -> (r: ApiResult<()>)
    ensures
        match vm_config_error(config.deep_view()) {
            None => r is Ok,
            Some(m) => is_bad_request(r, m),
        },
{
    let ghost c = config.deep_view();
    assert(c.len() == config@.len());
    if config.len() == 0 {
        return bad_request("VM configuration must not be empty");
    }
    if config.len() > 256 {
        return bad_request("VM configuration has too many entries");
    }
    let mut i: usize = 0;
    while i < config.len()
        invariant
            i <= config@.len(),
            c == config.deep_view(),
            c.len() == config@.len(),
            0 < config@.len() <= 256,
            first_entry_error(c, 0) == first_entry_error(c, i as int),
        decreases config@.len() - i,
    {
        assert(c[i as int] == (config@[i as int].0@, config@[i as int].1@));
        match entry_error_exec(&config[i].0, &config[i].1) {
            Some(m) => {
                assert(first_entry_error(c, i as int) == Some(m@));
                return bad_request_owned(m);
            },
            None => {
                assert(first_entry_error(c, i as int) == first_entry_error(c, i + 1));
            },
        }
        i += 1;
    }
    assert(first_entry_error(c, i as int) is None);
    Ok(())
}

// ───────────────────────── merging sections ─────────────────────────

/// The value that the last entry for `key` gives it, if any.
pub open spec fn last_value(s: Seq<(Seq<char>, Seq<char>)>, key: Seq<char>) -> Option<Seq<char>>
    decreases s.len(),
{
    if s.len() == 0 {
        None
    } else if s.last().0 == key {
        Some(s.last().1)
    } else {
        last_value(s.drop_last(), key)
    }
}

/// Keys strictly increase.
pub open spec fn keys_ascending(s: Seq<(Seq<char>, Seq<char>)>) -> bool {
    forall|i: int, j: int| 0 <= i < j < s.len() ==> crate::text::str_lt(#[trigger] s[i].0, #[trigger] s[j].0)
}

pub open spec fn has_key(s: Seq<(Seq<char>, Seq<char>)>, key: Seq<char>) -> bool {
    exists|j: int| 0 <= j < s.len() && #[trigger] s[j].0 == key
}

/// The value listed for `key`, if any.
pub open spec fn lookup(s: Seq<(Seq<char>, Seq<char>)>, key: Seq<char>) -> Option<Seq<char>> {
    if has_key(s, key) {
        Some(s[choose|j: int| 0 <= j < s.len() && #[trigger] s[j].0 == key].1)
    } else {
        None
    }
}

proof fn lemma_lookup_at(s: Seq<(Seq<char>, Seq<char>)>, j: int)
    requires
        keys_ascending(s),
        0 <= j < s.len(),
    ensures
        lookup(s, s[j].0) == Some(s[j].1),
{
    assert(has_key(s, s[j].0));
    let c = choose|c: int| 0 <= c < s.len() && #[trigger] s[c].0 == s[j].0;
    if c != j {
        crate::text::lemma_str_lt_irreflexive(s[j].0);
        if c < j {
            assert(crate::text::str_lt(s[c].0, s[j].0));
        } else {
            assert(crate::text::str_lt(s[j].0, s[c].0));
        }
    }
}

/// Set `key` to `value` in a list whose keys ascend, keeping them ascending.
fn put_entry(out: &mut Vec<(String, String)>, key: String, value: String)
    requires
        keys_ascending(old(out).deep_view()),
    ensures
        keys_ascending(final(out).deep_view()),
        forall|k: Seq<char>|
            #![trigger lookup(final(out).deep_view(), k)]
            lookup(final(out).deep_view(), k) == if k == key@ {
                Some(value@)
            } else {
                lookup(old(out).deep_view(), k)
            },
{
    let ghost o = out.deep_view();
    let mut p: usize = 0;
    while p < out.len() && crate::text::string_lt(&out[p].0, &key)
        invariant
            p <= out@.len(),
            o == out.deep_view(),
            forall|a: int| 0 <= a < p ==> crate::text::str_lt(#[trigger] o[a].0, key@),
        decreases out@.len() - p,
    {
        assert(o[p as int].0 == out@[p as int].0@);
        p += 1;
    }
    if p < out.len() && crate::text::string_eq(&out[p].0, &key) {
        let ghost kp = p as int;
        assert(o[kp].0 == key@);
        let old_entry = out.remove(p);
        let ghost mid = out.deep_view();
        assert(mid =~= o.remove(kp));
        let ghost ov = value@;
        out.insert(p, (old_entry.0, value));
        let ghost f = out.deep_view();
        assert(f =~= mid.insert(kp, (key@, ov)));
        assert(f =~= o.update(kp, (key@, value@)));
        assert forall|k: Seq<char>| #![trigger lookup(f, k)]
            lookup(f, k) == if k == key@ { Some(value@) } else { lookup(o, k) } by {
            if has_key(f, k) {
                let j = choose|j: int| 0 <= j < f.len() && #[trigger] f[j].0 == k;
                lemma_lookup_at(f, j);
                crate::text::lemma_str_lt_irreflexive(k);
                if j != kp {
                    lemma_lookup_at(o, j);
                }
            } else {
                if has_key(o, k) {
                    let j = choose|j: int| 0 <= j < o.len() && #[trigger] o[j].0 == k;
                    assert(f[j].0 == k);
                }
                if k == key@ {
                    assert(f[kp].0 == k);
                }
            }
        }
    } else {
        proof {
            if p < out@.len() {
                assert(o[p as int].0 == out@[p as int].0@);
                crate::text::lemma_str_lt_total(key@, o[p as int].0);
            }
        }
        let ghost kp = p as int;
        let ghost e = (key@, value@);
        out.insert(p, (key, value));
        let ghost f = out.deep_view();
        assert(f[kp] == e);
        assert(f =~= o.insert(kp, e));
        assert forall|i: int, j: int| 0 <= i < j < f.len() implies crate::text::str_lt(#[trigger] f[i].0, #[trigger] f[j].0) by {
            if j < kp {
            } else if j == kp {
            } else if i < kp {
                assert(f[j] == o[j - 1]);
                if j - 1 > kp {
                    assert(crate::text::str_lt(o[kp].0, o[j - 1].0));
                    crate::text::lemma_str_lt_trans(e.0, o[kp].0, o[j - 1].0);
                }
                crate::text::lemma_str_lt_trans(f[i].0, e.0, f[j].0);
            } else if i == kp {
                assert(f[j] == o[j - 1]);
                if j - 1 > kp {
                    assert(crate::text::str_lt(o[kp].0, o[j - 1].0));
                    crate::text::lemma_str_lt_trans(e.0, o[kp].0, o[j - 1].0);
                }
            } else {
                assert(f[i] == o[i - 1] && f[j] == o[j - 1]);
            }
        }
        assert forall|k: Seq<char>| #![trigger lookup(f, k)]
            lookup(f, k) == if k == key@ { Some(value@) } else { lookup(o, k) } by {
            if has_key(f, k) {
                let j = choose|j: int| 0 <= j < f.len() && #[trigger] f[j].0 == k;
                lemma_lookup_at(f, j);
                crate::text::lemma_str_lt_irreflexive(k);
                if j < kp {
                    assert(f[j] == o[j]);
                    lemma_lookup_at(o, j);
                } else if j > kp {
                    assert(f[j] == o[j - 1]);
                    lemma_lookup_at(o, j - 1);
                }
            } else {
                if has_key(o, k) {
                    let j = choose|j: int| 0 <= j < o.len() && #[trigger] o[j].0 == k;
                    if j < kp {
                        assert(f[j] == o[j]);
                    } else {
                        assert(f[j + 1] == o[j]);
                    }
                }
                if k == key@ {
                    assert(f[kp].0 == k);
                }
            }
        }
    }
}

/// All the entries of the four sections, in order.
pub open spec fn all_sections(b: UpdateVmConfigBody) -> Seq<(Seq<char>, Seq<char>)> {
    b.config.deep_view() + b.advance.deep_view() + b.graphics.deep_view()
        + b.other_devices.deep_view()
}

fn append_entries(dst: &mut Vec<(String, String)>, src: &Vec<(String, String)>)
    ensures
        final(dst).deep_view() == old(dst).deep_view() + src.deep_view(),
{
    let ghost d0 = dst.deep_view();
    let mut i: usize = 0;
    while i < src.len()
        invariant
            i <= src@.len(),
            dst.deep_view() == d0 + src.deep_view().take(i as int),
        decreases src@.len() - i,
    {
        let ghost before = dst.deep_view();
        let k = src[i].0.clone();
        let v = src[i].1.clone();
        dst.push((k, v));
        assert(src.deep_view()[i as int] == (src@[i as int].0@, src@[i as int].1@));
        assert(dst.deep_view() =~= before.push((k@, v@)));
        assert(src.deep_view().take(i + 1) =~= src.deep_view().take(i as int).push(src.deep_view()[i as int]));
        assert(dst.deep_view() =~= d0 + src.deep_view().take(i + 1));
        i += 1;
    }
    assert(src.deep_view().take(src@.len() as int) =~= src.deep_view());
}

/// The four sections merged into one configuration: keys ascending, each
/// key with the value of its last entry (a later section wins).
pub fn merge_config_sections(body: &UpdateVmConfigBody) -> (r: Vec<(String, String)>)
    ensures
        keys_ascending(r.deep_view()),
        forall|k: Seq<char>| #![trigger lookup(r.deep_view(), k)]
            lookup(r.deep_view(), k) == last_value(all_sections(*body), k),
        r.deep_view().len() == 0 <==> all_sections(*body).len() == 0,
{
    let mut all: Vec<(String, String)> = Vec::new();
    append_entries(&mut all, &body.config);
    append_entries(&mut all, &body.advance);
    append_entries(&mut all, &body.graphics);
    append_entries(&mut all, &body.other_devices);
    let ghost a = all.deep_view();
    assert(a =~= all_sections(*body));
    let mut out: Vec<(String, String)> = Vec::new();
    let mut i: usize = 0;
    while i < all.len()
        invariant
            i <= all@.len(),
            a == all.deep_view(),
            keys_ascending(out.deep_view()),
            forall|k: Seq<char>| #![trigger lookup(out.deep_view(), k)]
                lookup(out.deep_view(), k) == last_value(a.take(i as int), k),
        decreases all@.len() - i,
    {
        let k = all[i].0.clone();
        let v = all[i].1.clone();
        assert(a[i as int] == (k@, v@));
        put_entry(&mut out, k, v);
        assert(a.take(i + 1).drop_last() =~= a.take(i as int));
        i += 1;
    }
    assert(a.take(a.len() as int) =~= a);
    proof {
        let o = out.deep_view();
        if o.len() > 0 {
            lemma_lookup_at(o, 0);
            assert(lookup(o, o[0].0) is Some);
            if a.len() == 0 {
                assert(last_value(a, o[0].0) is None);
            }
        }
        if a.len() > 0 {
            assert(last_value(a, a.last().0) is Some);
            assert(lookup(o, a.last().0) is Some);
        }
    }
    out
}

/// The decision on a configuration update: refused when there is neither a
/// configuration nor an auto-start choice, and the configuration, if any,
/// must pass `validate_vm_config`.
pub fn check_config_update(merged: &Vec<(String, String)>, auto_start: Option<bool>) -> (r: ApiResult<()>)
    ensures
        merged@.len() == 0 && auto_start is None ==> is_bad_request(
            r,
            "at least one configuration section must not be empty"@,
        ),
        merged@.len() == 0 && auto_start is Some ==> r is Ok,
        merged@.len() > 0 ==> match vm_config_error(merged.deep_view()) {
            None => r is Ok,
            Some(m) => is_bad_request(r, m),
        },
{
    if merged.len() == 0 {
        if auto_start.is_none() {
            return bad_request("at least one configuration section must not be empty");
        }
        return Ok(());
    }
    validate_vm_config(merged)
}

pub open spec fn config_note(name: Seq<char>) -> Seq<char> {
    "updated VM configuration "@ + name
}

pub open spec fn auto_start_note(name: Seq<char>, on: bool) -> Seq<char> {
    (if on {
        "enabled"@
    } else {
        "disabled"@
    }) + " auto-start for vm "@ + name
}

/// The audit note of a configuration update.
pub open spec fn update_note(name: Seq<char>, has_config: bool, auto_start: Option<bool>) -> Seq<char> {
    match auto_start {
        Some(on) => if has_config {
            config_note(name) + "; "@ + auto_start_note(name, on)
        } else {
            auto_start_note(name, on)
        },
        None => if has_config {
            config_note(name)
        } else {
            ""@
        },
    }
}

pub fn vm_update_note(name: &str, has_config: bool, auto_start: Option<bool>) -> (r: String)
    ensures
        r@ == update_note(name@, has_config, auto_start),
{
    proof {
        reveal_strlit("");
    }
    let mut out = String::new();
    if has_config {
        push_str(&mut out, "updated VM configuration ");
        push_str(&mut out, name);
    }
    if let Some(on) = auto_start {
        if has_config {
            push_str(&mut out, "; ");
        }
        if on {
            push_str(&mut out, "enabled");
        } else {
            push_str(&mut out, "disabled");
        }
        push_str(&mut out, " auto-start for vm ");
        push_str(&mut out, name);
    }
    out
}

// ───────────────────────── switches ─────────────────────────

pub open spec fn opt_blank(o: Option<String>) -> bool {
    match o {
        None => true,
        Some(s) => s@.len() == 0,
    }
}

pub open spec fn switch_type_ok(t: Seq<char>) -> bool {
    t == "standard"@ || t == "manual"@ || t == "netgraph"@ || t == "vale"@ || t == "vxlan"@
}

/// An address in IPv4 CIDR notation: `a.b.c.d/p` with `p` at most 32.
pub open spec fn cidr_error(a: Seq<char>) -> Option<Seq<char>> {
    match split_once(a, '/') {
        None => Some("address must use CIDR notation"@),
        Some((ip, prefix)) => if ipv4_value(ip) is None || match parse_unsigned(prefix, 255) {
            Some(p) => p > 32,
            None => true,
        } {
            Some("address must use IPv4 CIDR notation"@)
        } else {
            None
        },
    }
}

/// Why a switch cannot be created as asked, if it cannot.
pub open spec fn switch_create_error(b: CreateSwitchBody) -> Option<Seq<char>> {
    if !switch_type_ok(b.typ@) {
        Some("invalid switch type"@)
    } else if b.typ@ == "manual"@ && opt_blank(b.bridge) {
        Some("manual switches require a bridge"@)
    } else if b.typ@ == "vxlan"@ && (opt_blank(b.iface) || b.vlan is None) {
        Some("vxlan switches require an interface and VLAN ID"@)
    } else if b.vlan matches Some(v) && v >= 4095 {
        Some("VLAN ID must be between 0 and 4094"@)
    } else if b.mtu matches Some(m) && !(100 <= m && m <= 9000) {
        Some("MTU must be between 100 and 9000"@)
    } else {
        match b.address {
            Some(a) => cidr_error(a@),
            None => None,
        }
    }
}

fn opt_blank_exec(o: &Option<String>) -> (r: bool)
    ensures
        r == opt_blank(*o),
{
    match o {
        None => true,
        Some(s) => s.as_str().is_empty(),
    }
}

fn check_cidr(a: &str) -> (r: ApiResult<()>)
    ensures
        match cidr_error(a@) {
            None => r is Ok,
            Some(m) => is_bad_request(r, m),
        },
{
    match split_once_str(a, '/') {
        None => bad_request("address must use CIDR notation"),
        Some((ip, prefix)) => {
            let bad_prefix = match parse_unsigned_str(prefix.as_str(), 255) {
                Some(p) => p > 32,
                None => true,
            };
            if parse_ipv4(ip.as_str()).is_none() || bad_prefix {
                return bad_request("address must use IPv4 CIDR notation");
            }
            Ok(())
        },
    }
}

pub fn validate_switch_create(body: &CreateSwitchBody) -> (r: ApiResult<()>)
    ensures
        match switch_create_error(*body) {
            None => r is Ok,
            Some(m) => is_bad_request(r, m),
        },
{
    let t = body.typ.as_str();
    if !(str_eq(t, "standard") || str_eq(t, "manual") || str_eq(t, "netgraph") || str_eq(t, "vale")
        || str_eq(t, "vxlan")) {
        return bad_request("invalid switch type");
    }
    if str_eq(t, "manual") && opt_blank_exec(&body.bridge) {
        return bad_request("manual switches require a bridge");
    }
    if str_eq(t, "vxlan") && (opt_blank_exec(&body.iface) || body.vlan.is_none()) {
        return bad_request("vxlan switches require an interface and VLAN ID");
    }
    if let Some(v) = body.vlan {
        if v >= 4095 {
            return bad_request("VLAN ID must be between 0 and 4094");
        }
    }
    if let Some(m) = body.mtu {
        if !(100 <= m && m <= 9000) {
            return bad_request("MTU must be between 100 and 9000");
        }
    }
    match &body.address {
        Some(a) => check_cidr(a.as_str()),
        None => Ok(()),
    }
}

// ───────────────────────── initialisation and requests ─────────────────────────

/// Why a `vm_dir` spec is refused, if it is: `zfs:` and a dataset of
/// letters, digits, `/ _ - .`, or an absolute path without NUL; 1 to 256 bytes.
pub open spec fn init_spec_error(spec: Seq<char>) -> Option<Seq<char>> {
    if spec.len() == 0 || byte_len(spec) > 256 {
        Some("invalid vm_dir spec"@)
    } else if starts_with(spec, "zfs:"@) {
        if spec.skip(4).len() == 0 {
            Some("ZFS dataset name is empty"@)
        } else if !all_alnum_or(spec.skip(4), "/_-."@) {
            Some("ZFS dataset name may only contain letters, digits, /, _, - and ."@)
        } else {
            None
        }
    } else if !starts_with(spec, "/"@) {
        Some("directory path must be absolute (start with /)"@)
    } else if spec.contains('\0') {
        Some("invalid path"@)
    } else {
        None
    }
}

pub fn validate_init_spec(spec: &str) -> (r: ApiResult<()>)
    ensures
        match init_spec_error(spec@) {
            None => r is Ok,
            Some(m) => is_bad_request(r, m),
        },
{
    if spec.is_empty() || bytes_exceed(spec, 256) {
        return bad_request("invalid vm_dir spec");
    }
    if starts_with_str(spec, "zfs:") {
        proof {
            reveal_strlit("zfs:");
        }
        let v = chars_of(spec);
        let dataset = string_from(&v, 4, v.len());
        assert(dataset@ =~= spec@.skip(4));
        if dataset.as_str().is_empty() {
            return bad_request("ZFS dataset name is empty");
        }
        if !all_alnum_or_str(dataset.as_str(), "/_-.") {
            return bad_request("ZFS dataset name may only contain letters, digits, /, _, - and .");
        }
    } else {
        if !starts_with_str(spec, "/") {
            return bad_request("directory path must be absolute (start with /)");
        }
        if contains_char(spec, '\0') {
            return bad_request("invalid path");
        }
    }
    Ok(())
}

/// A machine creation request: a valid name and a template.
pub fn check_create_vm(body: &CreateVmBody) -> (r: ApiResult<()>)
    ensures
        match lower_name_error(body.name@, "VM"@) {
            Some(m) => is_bad_request(r, m),
            None => if body.template@.len() == 0 {
                is_bad_request(r, "template is required"@)
            } else {
                r is Ok
            },
        },
{
    validate_vm_name(body.name.as_str())?;
    if body.template.as_str().is_empty() {
        return bad_request("template is required");
    }
    Ok(())
}

/// A datastore creation request: a valid name and a spec.
pub fn check_create_datastore(body: &CreateDatastoreBody) -> (r: ApiResult<()>)
    ensures
        match lower_name_error(body.name@, "datastore"@) {
            Some(m) => is_bad_request(r, m),
            None => if body.spec@.len() == 0 {
                is_bad_request(r, "spec is required"@)
            } else {
                r is Ok
            },
        },
{
    validate_datastore_name(body.name.as_str())?;
    if body.spec.as_str().is_empty() {
        return bad_request("spec is required");
    }
    Ok(())
}

/// A datastore removal: never the default one, and a valid name.
pub fn check_delete_datastore(name: &str) -> (r: ApiResult<()>)
    ensures
        name@ == "default"@ ==> is_bad_request(r, "cannot remove the default datastore"@),
        name@ != "default"@ ==> match lower_name_error(name@, "datastore"@) {
            None => r is Ok,
            Some(m) => is_bad_request(r, m),
        },
{
    if str_eq(name, "default") {
        return bad_request("cannot remove the default datastore");
    }
    validate_datastore_name(name)
}

} // verus!
