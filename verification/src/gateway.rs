//! Default gateways: which routes are configured in rc.conf, which are in
//! effect, the `route(8)` commands that change them, and when a configured
//! route has to be put back.
use vstd::prelude::*;
use crate::error::{ApiError, ApiResult};
use crate::network::{DefaultGateway, Route, same_gw, same_gw_spec, validate_ipv4, validate_ipv6};
use crate::netaddr::{ipv4_value};
use crate::rcvars::RcVars;
use crate::text::{contains_str, contains_sub, join, join_strings, owned, push_str, str_eq, trim, trim_str};

verus! {

/// A configured router: a value that is set, not empty and not `NO`.
pub open spec fn router_value(v: Option<Seq<char>>) -> Option<Seq<char>> {
    match v {
        Some(s) => if s.len() > 0 && s != "NO"@ {
            Some(s)
        } else {
            None
        },
        None => None,
    }
}

fn configured_router(rc: &RcVars, key: &str) -> (r: Option<String>)
    ensures
        r.deep_view() == router_value(rc.lookup(key@)),
{
    let k = owned(key);
    match rc.get(&k) {
        Some(v) => {
            if v.as_str().is_empty() || str_eq(v.as_str(), "NO") {
                None
            } else {
                Some(v)
            }
        },
        None => None,
    }
}

/// `defaultrouter` from rc.conf.
pub fn read_defaultrouter(rc: &RcVars) -> (r: Option<String>)
    ensures
        r.deep_view() == router_value(rc.lookup("defaultrouter"@)),
{
    configured_router(rc, "defaultrouter")
}

/// `ipv6_defaultrouter` from rc.conf.
pub fn read_ipv6_defaultrouter(rc: &RcVars) -> (r: Option<String>)
    ensures
        r.deep_view() == router_value(rc.lookup("ipv6_defaultrouter"@)),
{
    configured_router(rc, "ipv6_defaultrouter")
}

/// The routing-table family name of an address family.
pub open spec fn family_of(is_v6: bool) -> Seq<char> {
    if is_v6 {
        "Internet6"@
    } else {
        "Internet"@
    }
}

/// Route `r` is the default route of the family.
pub open spec fn is_default_route(r: Route, is_v6: bool) -> bool {
    r.destination@ == "default"@ && r.family@ == family_of(is_v6)
}

/// Position of the first default route of the family.
pub open spec fn default_route_index(rs: Seq<Route>, is_v6: bool) -> Option<int>
    decreases rs.len(),
{
    if rs.len() == 0 {
        None
    } else if is_default_route(rs[0], is_v6) {
        Some(0)
    } else {
        match default_route_index(rs.drop_first(), is_v6) {
            Some(i) => Some(i + 1),
            None => None,
        }
    }
}

fn find_default_route(routes: &Vec<Route>, is_v6: bool) -> (r: Option<usize>)
    ensures
        match r {
            Some(i) => i < routes@.len() && default_route_index(routes@, is_v6) == Some(i as int),
            None => default_route_index(routes@, is_v6) is None,
        },
{
    let mut i: usize = 0;
    assert(routes@.skip(0) =~= routes@);
    while i < routes.len()
        invariant
            i <= routes@.len(),
            match default_route_index(routes@, is_v6) {
                Some(k) => match default_route_index(routes@.skip(i as int), is_v6) {
                    Some(m) => k == m + i,
                    None => false,
                },
                None => default_route_index(routes@.skip(i as int), is_v6) is None,
            },
        decreases routes@.len() - i,
    {
        assert(routes@.skip(i as int)[0] == routes@[i as int]);
        let fam = if is_v6 {
            "Internet6"
        } else {
            "Internet"
        };
        if str_eq(routes[i].destination.as_str(), "default") && str_eq(
            routes[i].family.as_str(),
            fam,
        ) {
            return Some(i);
        }
        assert(routes@.skip(i as int).drop_first() =~= routes@.skip(i + 1));
        i += 1;
    }
    None
}

/// The gateway of the live default route of a family, if there is one.
pub fn live_default_gateway(routes: &Vec<Route>, is_v6: bool) -> (r: Option<String>)
    ensures
        match default_route_index(routes@, is_v6) {
            Some(i) => r matches Some(g) && g@ == routes@[i].gateway@,
            None => r is None,
        },
{
    match find_default_route(routes, is_v6) {
        Some(i) => Some(routes[i].gateway.clone()),
        None => None,
    }
}

/// The gateway report: live default routes of both families, with their
/// interfaces, next to what rc.conf configures.
pub fn default_gateway_of(routes: &Vec<Route>, rc: &RcVars) -> (d: DefaultGateway)
    ensures
        match default_route_index(routes@, false) {
            Some(i) => d.gateway.deep_view() == Some(routes@[i].gateway@) && d.interface.deep_view()
                == Some(routes@[i].interface@),
            None => d.gateway is None && d.interface is None,
        },
        match default_route_index(routes@, true) {
            Some(i) => d.gateway6.deep_view() == Some(routes@[i].gateway@)
                && d.interface6.deep_view() == Some(routes@[i].interface@),
            None => d.gateway6 is None && d.interface6 is None,
        },
        d.configured.deep_view() == router_value(rc.lookup("defaultrouter"@)),
        d.configured6.deep_view() == router_value(rc.lookup("ipv6_defaultrouter"@)),
{
    let (gateway, interface) = match find_default_route(routes, false) {
        Some(i) => (Some(routes[i].gateway.clone()), Some(routes[i].interface.clone())),
        None => (None, None),
    };
    let (gateway6, interface6) = match find_default_route(routes, true) {
        Some(i) => (Some(routes[i].gateway.clone()), Some(routes[i].interface.clone())),
        None => (None, None),
    };
    DefaultGateway {
        gateway,
        interface,
        configured: read_defaultrouter(rc),
        gateway6,
        interface6,
        configured6: read_ipv6_defaultrouter(rc),
    }
}

// ───────────────────────── route(8) commands ─────────────────────────

/// `route [-6] <verb> default [gw]`.
pub open spec fn route_args(is_v6: bool, verb: Seq<char>, gw: Option<Seq<char>>) -> Seq<Seq<char>> {
    (if is_v6 {
        seq!["-6"@]
    } else {
        seq![]
    }) + seq![verb, "default"@] + match gw {
        Some(g) => seq![g],
        None => seq![],
    }
}

fn route_args_vec(is_v6: bool, verb: &str, gw: Option<&str>) -> (r: Vec<String>)
    ensures
        r.deep_view() == route_args(
            is_v6,
            verb@,
            match gw {
                Some(g) => Some(g@),
                None => None,
            },
        ),
{
    let mut v: Vec<String> = Vec::new();
    if is_v6 {
        v.push(owned("-6"));
    }
    v.push(owned(verb));
    v.push(owned("default"));
    match gw {
        Some(g) => v.push(owned(g)),
        None => {},
    }
    assert(v.deep_view() =~= route_args(
        is_v6,
        verb@,
        match gw {
            Some(g) => Some(g@),
            None => None,
        },
    ));
    v
}

/// Arguments that move the default route to `gw`; when that fails the
/// route is added instead.
pub fn gateway_change_args(is_v6: bool, gw: &str) -> (r: Vec<String>)
    ensures
        r.deep_view() == route_args(is_v6, "change"@, Some(gw@)),
{
    route_args_vec(is_v6, "change", Some(gw))
}

pub fn gateway_add_args(is_v6: bool, gw: &str) -> (r: Vec<String>)
    ensures
        r.deep_view() == route_args(is_v6, "add"@, Some(gw@)),
{
    route_args_vec(is_v6, "add", Some(gw))
}

pub fn gateway_delete_args(is_v6: bool) -> (r: Vec<String>)
    ensures
        r.deep_view() == route_args(is_v6, "delete"@, None),
{
    route_args_vec(is_v6, "delete", None)
}

/// Deleting a default route that is not there counts as done.
pub open spec fn route_absent_error(e: Seq<char>) -> bool {
    contains_sub(e, "not in table"@) || contains_sub(e, "has not been found"@)
}

/// The outcome of `route delete default`, given its error output if it failed.
pub fn delete_default_gateway_result(err: Option<&str>) -> (r: Result<(), String>)
    ensures
        match err {
            None => r is Ok,
            Some(e) => if route_absent_error(e@) {
                r is Ok
            } else {
                r matches Err(m) && m@ == e@
            },
        },
{
    match err {
        None => Ok(()),
        Some(e) => {
            if contains_str(e, "not in table") || contains_str(e, "has not been found") {
                Ok(())
            } else {
                Err(owned(e))
            }
        },
    }
}

// ───────────────────────── restoring configured routes ─────────────────────────

/// A configured default route has to be put back unless a live default
/// route with the same gateway (ignoring any zone) is in effect.
pub open spec fn restore_needed_spec(want: Option<Seq<char>>, have: Option<Seq<char>>) -> bool {
    match want {
        None => false,
        Some(w) => match have {
            Some(h) => !same_gw_spec(w, h),
            None => true,
        },
    }
}

pub fn restore_needed(want: &Option<String>, have: &Option<String>) -> (b: bool)
    ensures
        b == restore_needed_spec(want.deep_view(), have.deep_view()),
{
    match want {
        None => false,
        Some(w) => match have {
            Some(h) => !same_gw(w.as_str(), h.as_str()),
            None => true,
        },
    }
}

/// The gateways to set again, IPv4 first: `(is_v6, gateway)`.
pub open spec fn restore_plan_spec(
    want4: Option<Seq<char>>,
    have4: Option<Seq<char>>,
    want6: Option<Seq<char>>,
    have6: Option<Seq<char>>,
) -> Seq<(bool, Seq<char>)> {
    (if restore_needed_spec(want4, have4) {
        seq![(false, want4->Some_0)]
    } else {
        seq![]
    }) + (if restore_needed_spec(want6, have6) {
        seq![(true, want6->Some_0)]
    } else {
        seq![]
    })
}

/// Which configured default routes are not in effect and must be set again.
pub fn restore_plan(
    want4: &Option<String>,
    have4: &Option<String>,
    want6: &Option<String>,
    have6: &Option<String>,
) -> (r: Vec<(bool, String)>)
    ensures
        r.deep_view() == restore_plan_spec(
            want4.deep_view(),
            have4.deep_view(),
            want6.deep_view(),
            have6.deep_view(),
        ),
{
    let mut out: Vec<(bool, String)> = Vec::new();
    if restore_needed(want4, have4) {
        match want4 {
            Some(w) => out.push((false, w.clone())),
            None => {},
        }
    }
    let ghost mid = out.deep_view();
    if restore_needed(want6, have6) {
        match want6 {
            Some(w) => out.push((true, w.clone())),
            None => {},
        }
    }
    assert(out.deep_view() =~= restore_plan_spec(
        want4.deep_view(),
        have4.deep_view(),
        want6.deep_view(),
        have6.deep_view(),
    ));
    out
}

/// `<IPv4|IPv6> default route restore failed: <error>`.
pub fn restore_failure_note(is_v6: bool, err: &str) -> (r: String)
    ensures
        r@ == (if is_v6 {
            "IPv6"@
        } else {
            "IPv4"@
        }) + " default route restore failed: "@ + err@,
{
    let mut m = if is_v6 {
        owned("IPv6")
    } else {
        owned("IPv4")
    };
    push_str(&mut m, " default route restore failed: ");
    push_str(&mut m, err);
    m
}

/// The note a restore leaves: nothing when every route was set, else the
/// failures joined by `; `.
pub fn restore_note(errors: &Vec<String>) -> (r: Option<String>)
    ensures
        errors@.len() == 0 ==> r is None,
        errors@.len() > 0 ==> (r matches Some(n) && n@ == join(errors.deep_view(), "; "@)),
{
    if errors.len() == 0 {
        None
    } else {
        Some(join_strings(errors, "; "))
    }
}

// ───────────────────────── setting a gateway ─────────────────────────

/// What a request asks of one family's gateway: `None` clears it, else the
/// trimmed address, which must be of the family.
pub fn gateway_request(raw: &str, is_v6: bool) -> (r: ApiResult<Option<String>>)
    ensures
        trim(raw@).len() == 0 ==> (r matches Ok(None)),
        r matches Ok(Some(g)) ==> g@ == trim(raw@) && g@.len() > 0,
        trim(raw@).len() > 0 && !is_v6 ==> (r is Ok <==> ipv4_value(trim(raw@)) is Some),
        trim(raw@).len() > 0 && is_v6 ==> (r is Ok <==> crate::network::ipv6_with_zone_ok(
            trim(raw@),
        )),
{
    let gw = trim_str(raw);
    if gw.as_str().is_empty() {
        return Ok(None);
    }
    if is_v6 {
        validate_ipv6(gw.as_str())?;
    } else {
        validate_ipv4(gw.as_str())?;
    }
    Ok(Some(gw))
}

} // verus!
