//! Static routes kept in rc.conf: `static_routes` lists their names and
//! `route_<name>` holds the arguments `route add` takes for each.
use vstd::prelude::*;
use crate::error::{ApiError, ApiResult, bad_request, bad_request_owned, is_bad_request};
use crate::netaddr::{ip_addr_parses, ip_addr_valid};
use crate::network::{StaticRoute, quoted_message};
use crate::num::{dec, parse_unsigned, parse_unsigned_str, push_dec};
use crate::rcvars::RcVars;
use crate::text::{
    all_chars, byte_len, bytes_exceed, chars_of, contains_char, is_alnum, is_alnum_char, join,
    join_strings, owned, push_str, split_once, split_once_str, split_ws, starts_with,
    starts_with_str, str_eq, string_eq, string_from, words, is_word, lemma_words_cons,
    lemma_words_word,
};

verus! {

// ───────────────────────── reading a route value ─────────────────────────

/// Position after the run of `-net` / `-host` tokens starting at `i`, whether
/// there was one, and whether the last one was `-host`.
pub open spec fn type_run(t: Seq<Seq<char>>, i: int, explicit: bool, host: bool) -> (int, bool, bool)
    decreases t.len() - i,
{
    if 0 <= i < t.len() && (t[i] == "-net"@ || t[i] == "-host"@) {
        type_run(t, i + 1, true, t[i] == "-host"@)
    } else {
        (i, explicit, host)
    }
}

/// The first token from `i` on that does not start with `-`.
pub open spec fn first_plain(t: Seq<Seq<char>>, i: int) -> Option<int>
    decreases t.len() - i,
{
    if i < 0 || i >= t.len() {
        None
    } else if !starts_with(t[i], "-"@) {
        Some(i)
    } else {
        first_plain(t, i + 1)
    }
}

/// A `route_<name>` value read as (destination, gateway, IPv6, host route):
/// an optional `-6` / `-inet6`, optional `-net` / `-host`, the destination,
/// then the first token not starting with `-` as gateway. Without `-6` the
/// family is IPv6 when either address holds a `:`; without a type flag the
/// route is a host route when the destination has no `/`.
pub open spec fn route_value_spec(value: Seq<char>) -> Option<(Seq<char>, Seq<char>, bool, bool)> {
    let t = words(value);
    if t.len() < 2 {
        None
    } else {
        let v6flag = t[0] == "-6"@ || t[0] == "-inet6"@;
        let i0: int = if v6flag {
            1
        } else {
            0
        };
        let run = type_run(t, i0, false, false);
        let i1 = run.0;
        if i1 >= t.len() {
            None
        } else {
            let dest = t[i1];
            match first_plain(t, i1 + 1) {
                None => None,
                Some(g) => {
                    let gw = t[g];
                    Some(
                        (
                            dest,
                            gw,
                            v6flag || gw.contains(':') || dest.contains(':'),
                            if run.1 {
                                run.2
                            } else {
                                !dest.contains('/')
                            },
                        ),
                    )
                },
            }
        }
    }
}

pub fn parse_route_value(value: &str) -> (r: Option<(String, String, bool, bool)>)
    ensures
        match r {
            Some((d, g, v6, host)) => route_value_spec(value@) == Some((d@, g@, v6, host)),
            None => route_value_spec(value@) is None,
        },
{
    let t = split_ws(value);
    let ghost tv = t.deep_view();
    let n = t.len();
    if n < 2 {
        return None;
    }
    assert(tv[0] == t@[0]@);
    let v6flag = str_eq(t[0].as_str(), "-6") || str_eq(t[0].as_str(), "-inet6");
    let mut idx: usize = if v6flag {
        1
    } else {
        0
    };
    let mut explicit = false;
    let mut host = false;
    let ghost i0 = idx as int;
    while idx < n && (str_eq(t[idx].as_str(), "-net") || str_eq(t[idx].as_str(), "-host"))
        invariant
            idx <= n == t@.len() == tv.len(),
            tv == t.deep_view(),
            0 <= i0 <= idx,
            type_run(tv, i0, false, false) == type_run(tv, idx as int, explicit, host),
        decreases n - idx,
    {
        assert(tv[idx as int] == t@[idx as int]@);
        host = str_eq(t[idx].as_str(), "-host");
        explicit = true;
        idx += 1;
    }
    proof {
        if idx < n {
            assert(tv[idx as int] == t@[idx as int]@);
        }
        assert(type_run(tv, idx as int, explicit, host) == (idx as int, explicit, host));
    }
    if idx >= n {
        return None;
    }
    assert(tv[idx as int] == t@[idx as int]@);
    let dest = t[idx].clone();
    let ghost i1 = idx as int;
    idx += 1;
    let ghost start = idx as int;
    while idx < n && starts_with_str(t[idx].as_str(), "-")
        invariant
            start <= idx <= n == t@.len() == tv.len(),
            tv == t.deep_view(),
            first_plain(tv, start) == first_plain(tv, idx as int),
        decreases n - idx,
    {
        assert(tv[idx as int] == t@[idx as int]@);
        idx += 1;
    }
    if idx >= n {
        return None;
    }
    assert(tv[idx as int] == t@[idx as int]@);
    let gateway = t[idx].clone();
    let is_ipv6 = v6flag || contains_char(gateway.as_str(), ':') || contains_char(dest.as_str(), ':');
    let is_host = if explicit {
        host
    } else {
        !contains_char(dest.as_str(), '/')
    };
    Some((dest, gateway, is_ipv6, is_host))
}

/// `ipv6` or `ipv4`.
pub open spec fn family_name(is_ipv6: bool) -> Seq<char> {
    if is_ipv6 {
        "ipv6"@
    } else {
        "ipv4"@
    }
}

fn family_string(is_ipv6: bool) -> (r: String)
    ensures
        r@ == family_name(is_ipv6),
{
    if is_ipv6 {
        owned("ipv6")
    } else {
        owned("ipv4")
    }
}

/// `r` is the route named `name` whose value reads as `v`.
pub open spec fn route_from(r: StaticRoute, name: Seq<char>, v: (Seq<char>, Seq<char>, bool, bool)) -> bool {
    r.name@ == name && r.destination@ == v.0 && r.gateway@ == v.1 && r.family@ == family_name(v.2)
        && r.is_host == v.3
}

/// The routes named in `names`, in order, skipping names whose
/// `route_<name>` is missing or unreadable.
pub open spec fn routes_spec(rc: RcVars, names: Seq<Seq<char>>) -> Seq<(Seq<char>, (Seq<char>, Seq<char>, bool, bool))>
    decreases names.len(),
{
    if names.len() == 0 {
        seq![]
    } else {
        let earlier = routes_spec(rc, names.drop_last());
        let name = names.last();
        match rc.lookup("route_"@ + name) {
            None => earlier,
            Some(v) => match route_value_spec(v) {
                None => earlier,
                Some(p) => earlier.push((name, p)),
            },
        }
    }
}

/// The names listed in `static_routes`.
pub open spec fn route_names(rc: RcVars) -> Seq<Seq<char>> {
    match rc.lookup("static_routes"@) {
        Some(s) => words(s),
        None => seq![],
    }
}

/// The static routes configured in rc.conf.
pub fn read_static_routes(rc: &RcVars) -> (r: Vec<StaticRoute>)
    ensures
        r@.len() == routes_spec(*rc, route_names(*rc)).len(),
        forall|i: int|
            0 <= i < r@.len() ==> route_from(
                #[trigger] r@[i],
                routes_spec(*rc, route_names(*rc))[i].0,
                routes_spec(*rc, route_names(*rc))[i].1,
            ),
{
    let key = owned("static_routes");
    let names = match rc.get(&key) {
        Some(s) => split_ws(s.as_str()),
        None => Vec::new(),
    };
    let ghost nv = names.deep_view();
    assert(nv == route_names(*rc));
    let mut out: Vec<StaticRoute> = Vec::new();
    let mut i: usize = 0;
    assert(nv.take(0) =~= Seq::<Seq<char>>::empty());
    while i < names.len()
        invariant
            i <= names@.len() == nv.len(),
            nv == names.deep_view(),
            out@.len() == routes_spec(*rc, nv.take(i as int)).len(),
            forall|k: int|
                0 <= k < out@.len() ==> route_from(
                    #[trigger] out@[k],
                    routes_spec(*rc, nv.take(i as int))[k].0,
                    routes_spec(*rc, nv.take(i as int))[k].1,
                ),
        decreases names@.len() - i,
    {
        assert(nv[i as int] == names@[i as int]@);
        assert(nv.take(i + 1).drop_last() =~= nv.take(i as int));
        let mut k = owned("route_");
        push_str(&mut k, names[i].as_str());
        match rc.get(&k) {
            None => {},
            Some(v) => match parse_route_value(v.as_str()) {
                None => {},
                Some((d, g, v6, host)) => {
                    out.push(
                        StaticRoute {
                            name: names[i].clone(),
                            destination: d,
                            gateway: g,
                            family: family_string(v6),
                            is_host: host,
                        },
                    );
                },
            },
        }
        i += 1;
    }
    assert(nv.take(nv.len() as int) =~= nv);
    out
}

// ───────────────────────── writing a route ─────────────────────────

/// The `route_<name>` value for a route.
pub open spec fn route_args_spec(dest: Seq<char>, gw: Seq<char>, is_ipv6: bool, is_host: bool) -> Seq<char> {
    (if is_ipv6 {
        "-6 "@
    } else {
        seq![]
    }) + (if is_host {
        "-host"@
    } else {
        "-net"@
    }) + " "@ + dest + " "@ + gw
}

/// A route written by `build_route_args` reads back as the same route:
/// destination, gateway, family and type, for any destination and gateway
/// that are single tokens not starting with `-`, and that hold no `:`
/// unless the route is IPv6 (a `:` marks an address as IPv6 on reading).
pub proof fn lemma_route_round_trip(dest: Seq<char>, gw: Seq<char>, is_ipv6: bool, is_host: bool)
    requires
        is_word(dest),
        is_word(gw),
        dest[0] != '-',
        gw[0] != '-',
        is_ipv6 || (!dest.contains(':') && !gw.contains(':')),
    ensures
        route_value_spec(route_args_spec(dest, gw, is_ipv6, is_host)) == Some((dest, gw, is_ipv6, is_host)),
{
    reveal_strlit("-6 ");
    reveal_strlit("-6");
    reveal_strlit("-inet6");
    reveal_strlit("-host");
    reveal_strlit("-net");
    reveal_strlit(" ");
    reveal_strlit("-");
    let flag: Seq<char> = if is_host {
        "-host"@
    } else {
        "-net"@
    };
    assert(is_word(flag)) by {
        assert forall|k: int| 0 <= k < flag.len() implies !crate::text::is_ws(#[trigger] flag[k]) by {}
    }
    lemma_words_word(gw);
    lemma_words_cons(dest, gw);
    lemma_words_cons(flag, dest + " "@ + gw);
    let tail = flag + " "@ + (dest + " "@ + gw);
    let t = words(route_args_spec(dest, gw, is_ipv6, is_host));
    let i0: int = if is_ipv6 { 1 } else { 0 };
    if is_ipv6 {
        let six: Seq<char> = "-6"@;
        assert(is_word(six)) by {
            assert forall|k: int| 0 <= k < six.len() implies !crate::text::is_ws(#[trigger] six[k]) by {}
        }
        lemma_words_cons(six, tail);
        assert(route_args_spec(dest, gw, is_ipv6, is_host) =~= six + " "@ + tail);
        assert(t =~= seq![six, flag, dest, gw]);
    } else {
        assert(route_args_spec(dest, gw, is_ipv6, is_host) =~= tail);
        assert(t =~= seq![flag, dest, gw]);
        assert(t[0] != "-6"@ && t[0] != "-inet6"@) by {
            assert(t[0][1] != "-6"@[1] || t[0].len() != "-6"@.len());
            assert(t[0].len() != "-inet6"@.len() || t[0][1] != "-inet6"@[1]);
        }
    }
    assert(t[i0] == flag);
    assert(t[i0 + 1] == dest);
    assert(t[i0 + 2] == gw);
    assert(dest != "-net"@ && dest != "-host"@) by {
        assert("-net"@[0] == '-');
        assert("-host"@[0] == '-');
    }
    assert((flag == "-host"@) == is_host) by {
        if !is_host {
            assert(flag.len() != "-host"@.len());
        }
    }
    assert(type_run(t, i0 + 1, true, is_host) == (i0 + 1, true, is_host));
    assert(type_run(t, i0, false, false) == (i0 + 1, true, is_host));
    assert(!starts_with(gw, "-"@)) by {
        if starts_with(gw, "-"@) {
            assert(gw.take(1)[0] == gw[0]);
        }
    }
    assert(first_plain(t, i0 + 2) == Some(i0 + 2));
}

pub fn build_route_args(dest: &str, gw: &str, is_ipv6: bool, is_host: bool) -> (r: String)
    ensures
        r@ == route_args_spec(dest@, gw@, is_ipv6, is_host),
{
    let mut s = String::new();
    if is_ipv6 {
        push_str(&mut s, "-6 ");
    }
    if is_host {
        push_str(&mut s, "-host");
    } else {
        push_str(&mut s, "-net");
    }
    push_str(&mut s, " ");
    push_str(&mut s, dest);
    push_str(&mut s, " ");
    push_str(&mut s, gw);
    proof {
        reveal_strlit("");
    }
    assert(s@ =~= route_args_spec(dest@, gw@, is_ipv6, is_host));
    s
}

/// The number in a generated name `net<N>`.
pub open spec fn route_number(name: Seq<char>) -> Option<nat> {
    if starts_with(name, "net"@) {
        parse_unsigned(name.skip(3), u32::MAX as nat)
    } else {
        None
    }
}

/// The largest generated number among the names (0 when none).
pub open spec fn max_route_number(names: Seq<Seq<char>>) -> nat
    decreases names.len(),
{
    if names.len() == 0 {
        0
    } else {
        let m = max_route_number(names.drop_last());
        match route_number(names.last()) {
            Some(n) => if n > m {
                n
            } else {
                m
            },
            None => m,
        }
    }
}

pub open spec fn names_of(rs: Seq<StaticRoute>) -> Seq<Seq<char>> {
    rs.map_values(|r: StaticRoute| r.name@)
}

fn route_number_of(name: &String) -> (r: Option<u32>)
    ensures
        match r {
            Some(n) => route_number(name@) == Some(n as nat),
            None => route_number(name@) is None,
        },
{
    proof {
        reveal_strlit("net");
    }
    if !starts_with_str(name.as_str(), "net") {
        return None;
    }
    let v = chars_of(name.as_str());
    let rest = string_from(&v, 3, v.len());
    assert(rest@ =~= name@.skip(3));
    match parse_unsigned_str(rest.as_str(), 4294967295) {
        Some(n) => Some(n as u32),
        None => None,
    }
}

/// A name for a new route: `net` followed by one more than the largest
/// number of an existing `net<N>` name.
pub fn next_route_name(existing: &Vec<StaticRoute>) -> (r: String)
    requires
        max_route_number(names_of(existing@)) < u32::MAX,
    ensures
        r@ == "net"@ + dec(max_route_number(names_of(existing@)) + 1),
{
    let ghost ns = names_of(existing@);
    let mut max_n: u32 = 0;
    let mut i: usize = 0;
    assert(ns.take(0) =~= Seq::<Seq<char>>::empty());
    while i < existing.len()
        invariant
            i <= existing@.len() == ns.len(),
            ns == names_of(existing@),
            max_n == max_route_number(ns.take(i as int)),
        decreases existing@.len() - i,
    {
        assert(ns.take(i + 1).drop_last() =~= ns.take(i as int));
        assert(ns[i as int] == existing@[i as int].name@);
        match route_number_of(&existing[i].name) {
            Some(n) => {
                if n > max_n {
                    max_n = n;
                }
            },
            None => {},
        }
        i += 1;
    }
    assert(ns.take(ns.len() as int) =~= ns);
    let mut s = owned("net");
    push_dec(&mut s, (max_n + 1) as u64);
    s
}

/// The `static_routes` value after adding `new_name`.
pub fn add_to_list(existing: &Vec<StaticRoute>, new_name: &str) -> (r: String)
    ensures
        r@ == join(names_of(existing@).push(new_name@), " "@),
{
    let mut names: Vec<String> = Vec::new();
    let mut i: usize = 0;
    while i < existing.len()
        invariant
            i <= existing@.len(),
            names.deep_view() == names_of(existing@).take(i as int),
        decreases existing@.len() - i,
    {
        let ghost n0 = names.deep_view();
        names.push(existing[i].name.clone());
        assert(names.deep_view() =~= n0.push(existing@[i as int].name@));
        assert(names.deep_view() =~= names_of(existing@).take(i + 1));
        i += 1;
    }
    assert(names_of(existing@).take(existing@.len() as int) =~= names_of(existing@));
    names.push(owned(new_name));
    assert(names.deep_view() =~= names_of(existing@).push(new_name@));
    join_strings(&names, " ")
}

/// Destination and gateway of a route: both given; the gateway an IP
/// address; the destination an address, or an address with a `/prefix`.
pub open spec fn route_input_ok(dest: Seq<char>, gw: Seq<char>) -> bool {
    &&& dest.len() > 0
    &&& gw.len() > 0
    &&& ip_addr_valid(gw)
    &&& match split_once(dest, '/') {
        Some((ip, _)) => ip_addr_valid(ip),
        None => ip_addr_valid(dest),
    }
}

pub fn validate_route_input(dest: &str, gw: &str) -> (r: ApiResult<()>)
    ensures
        r is Ok <==> route_input_ok(dest@, gw@),
        dest@.len() == 0 ==> is_bad_request(r, "destination is required"@),
        dest@.len() > 0 && gw@.len() == 0 ==> is_bad_request(r, "gateway is required"@),
        dest@.len() > 0 && gw@.len() > 0 && !ip_addr_valid(gw@) ==> is_bad_request(
            r,
            "'"@ + gw@ + "' "@ + "is not a valid IP address"@,
        ),
        dest@.len() > 0 && gw@.len() > 0 && ip_addr_valid(gw@) && !route_input_ok(dest@, gw@)
            ==> is_bad_request(r, "'"@ + dest@ + "' "@ + "is not a valid destination"@),
{
    if dest.is_empty() {
        return bad_request("destination is required");
    }
    if gw.is_empty() {
        return bad_request("gateway is required");
    }
    if !ip_addr_parses(gw) {
        return bad_request_owned(quoted_message(gw, "is not a valid IP address"));
    }
    let ok = match split_once_str(dest, '/') {
        Some((ip, _plen)) => ip_addr_parses(ip.as_str()),
        None => ip_addr_parses(dest),
    };
    if !ok {
        return bad_request_owned(quoted_message(dest, "is not a valid destination"));
    }
    Ok(())
}

/// A route name: 1 to 64 bytes of ASCII letters, digits and `_`.
pub open spec fn route_name_ok(name: Seq<char>) -> bool {
    name.len() > 0 && byte_len(name) <= 64 && all_chars(name, |c: char| is_alnum(c) || c == '_')
}

pub fn validate_route_name(name: &str) -> (r: ApiResult<()>)
    ensures
        r is Ok <==> route_name_ok(name@),
        (name@.len() == 0 || byte_len(name@) > 64) ==> is_bad_request(r, "invalid route name"@),
        name@.len() > 0 && byte_len(name@) <= 64 && !route_name_ok(name@) ==> is_bad_request(
            r,
            "route name must match [a-zA-Z0-9_]+"@,
        ),
{
    if name.is_empty() || bytes_exceed(name, 64) {
        return bad_request("invalid route name");
    }
    let v = chars_of(name);
    let mut i: usize = 0;
    while i < v.len()
        invariant
            i <= v@.len(),
            v@ == name@,
            name@.len() > 0 && byte_len(name@) <= 64,
            forall|k: int| 0 <= k < i ==> (is_alnum(#[trigger] v@[k]) || v@[k] == '_'),
        decreases v@.len() - i,
    {
        if !(is_alnum_char(v[i]) || v[i] == '_') {
            assert(!(is_alnum(name@[i as int]) || name@[i as int] == '_'));
            return bad_request("route name must match [a-zA-Z0-9_]+");
        }
        i += 1;
    }
    assert(all_chars(name@, |c: char| is_alnum(c) || c == '_'));
    Ok(())
}

/// `route [-6] <verb> -host|-net <dest> [gw]`.
pub open spec fn route_cmd_spec(verb: Seq<char>, dest: Seq<char>, gw: Option<Seq<char>>, is_ipv6: bool, is_host: bool) -> Seq<Seq<char>> {
    (if is_ipv6 {
        seq!["-6"@]
    } else {
        seq![]
    }) + seq![
        verb,
        if is_host {
            "-host"@
        } else {
            "-net"@
        },
        dest,
    ] + match gw {
        Some(g) => seq![g],
        None => seq![],
    }
}

/// Arguments of `route add` for a route.
pub fn route_add_args(dest: &str, gw: &str, is_ipv6: bool, is_host: bool) -> (r: Vec<String>)
    ensures
        r.deep_view() == route_cmd_spec("add"@, dest@, Some(gw@), is_ipv6, is_host),
{
    let mut v: Vec<String> = Vec::new();
    if is_ipv6 {
        v.push(owned("-6"));
    }
    v.push(owned("add"));
    v.push(if is_host {
        owned("-host")
    } else {
        owned("-net")
    });
    v.push(owned(dest));
    v.push(owned(gw));
    assert(v.deep_view() =~= route_cmd_spec("add"@, dest@, Some(gw@), is_ipv6, is_host));
    v
}

/// Arguments of `route delete` for a route.
pub fn route_delete_args(dest: &str, is_ipv6: bool, is_host: bool) -> (r: Vec<String>)
    ensures
        r.deep_view() == route_cmd_spec("delete"@, dest@, None, is_ipv6, is_host),
{
    let mut v: Vec<String> = Vec::new();
    if is_ipv6 {
        v.push(owned("-6"));
    }
    v.push(owned("delete"));
    v.push(if is_host {
        owned("-host")
    } else {
        owned("-net")
    });
    v.push(owned(dest));
    assert(v.deep_view() =~= route_cmd_spec("delete"@, dest@, None, is_ipv6, is_host));
    v
}

/// Position of the route named `name`.
pub open spec fn route_index(rs: Seq<StaticRoute>, name: Seq<char>) -> Option<int>
    decreases rs.len(),
{
    if rs.len() == 0 {
        None
    } else if rs[0].name@ == name {
        Some(0)
    } else {
        match route_index(rs.drop_first(), name) {
            Some(i) => Some(i + 1),
            None => None,
        }
    }
}

/// The route named `name`, or `NotFound`.
pub fn find_static_route(existing: &Vec<StaticRoute>, name: &String) -> (r: ApiResult<usize>)
    ensures
        match route_index(existing@, name@) {
            Some(i) => r matches Ok(k) && k == i,
            None => r matches Err(ApiError::NotFound(m)) && m@ == "static route '"@ + name@
                + "' not found"@,
        },
{
    let mut i: usize = 0;
    assert(existing@.skip(0) =~= existing@);
    while i < existing.len()
        invariant
            i <= existing@.len(),
            match route_index(existing@, name@) {
                Some(k) => match route_index(existing@.skip(i as int), name@) {
                    Some(m) => k == m + i,
                    None => false,
                },
                None => route_index(existing@.skip(i as int), name@) is None,
            },
        decreases existing@.len() - i,
    {
        assert(existing@.skip(i as int)[0] == existing@[i as int]);
        if string_eq(&existing[i].name, name) {
            return Ok(i);
        }
        assert(existing@.skip(i as int).drop_first() =~= existing@.skip(i + 1));
        i += 1;
    }
    let mut m = owned("static route '");
    push_str(&mut m, name.as_str());
    push_str(&mut m, "' not found");
    Err(ApiError::NotFound(m))
}

/// The `static_routes` value once `name` is removed: `None` when no route
/// is left, and the variable is then deleted.
pub fn remaining_list(existing: &Vec<StaticRoute>, name: &String) -> (r: Option<String>)
    ensures
        ({
            let rest = names_of(existing@).filter(|n: Seq<char>| n != name@);
            if rest.len() == 0 {
                r is None
            } else {
                r matches Some(s) && s@ == join(rest, " "@)
            }
        }),
{
    let ghost ns = names_of(existing@);
    let mut keep: Vec<String> = Vec::new();
    let mut i: usize = 0;
    assert(ns.take(0) =~= Seq::<Seq<char>>::empty());
    while i < existing.len()
        invariant
            i <= existing@.len() == ns.len(),
            ns == names_of(existing@),
            keep.deep_view() == ns.take(i as int).filter(|n: Seq<char>| n != name@),
        decreases existing@.len() - i,
    {
        assert(ns.take(i + 1).drop_last() =~= ns.take(i as int));
        assert(ns[i as int] == existing@[i as int].name@);
        let ghost k0 = keep.deep_view();
        if !string_eq(&existing[i].name, name) {
            keep.push(existing[i].name.clone());
            assert(keep.deep_view() =~= k0.push(ns[i as int]));
        }
        proof {
            let pred = |n: Seq<char>| n != name@;
            ns.take(i as int).lemma_filter_push(ns[i as int], pred);
            assert(ns.take(i + 1) =~= ns.take(i as int).push(ns[i as int]));
        }
        i += 1;
    }
    assert(ns.take(ns.len() as int) =~= ns);
    if keep.len() == 0 {
        None
    } else {
        Some(join_strings(&keep, " "))
    }
}

} // verus!
