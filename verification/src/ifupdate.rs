//! Updating an interface's configuration: checking and normalising the
//! request, and the rc.conf changes that persist it under its final name.
use vstd::prelude::*;
use crate::error::{ApiError, ApiResult, is_bad};
use crate::ifconfig::{
    alias_words, build_aliases_value, build_ipv6_value, build_primary_value, iface_key,
    iface_name_ok, ipv6_value_spec, make_iface_key, opt_nonblank, primary_value_spec,
    strip_name_directive, strip_name_spec, validate_iface_name,
};
use crate::network::{
    IfaceCfgView, IfaceRcConfConfig, NetworkInterface, PairView, alias_view, default_iface_name_spec,
    is_default_iface_name, v6_view,
};
use crate::rcconf::{validate_value, value_ok};
use crate::text::{join, owned, push_str, str_eq, string_eq, trim, trim_str};

verus! {

pub open spec fn opt_value_ok(o: Option<Seq<char>>) -> bool {
    match o {
        Some(s) => value_ok(s),
        None => true,
    }
}

/// Both parts of a pair are on one line.
pub open spec fn pair_ok(p: PairView) -> bool {
    value_ok(p.0) && value_ok(p.1)
}

pub open spec fn pairs_ok(p: Seq<PairView>) -> bool {
    forall|i: int| 0 <= i < p.len() ==> pair_ok(#[trigger] p[i])
}

pub open spec fn ifaces_ok(v: Seq<Seq<char>>) -> bool {
    forall|i: int| 0 <= i < v.len() ==> value_ok(#[trigger] v[i]) && iface_name_ok(v[i])
}

/// The rename target a request asks for: its `name` when set, else a
/// `name <X>` directive found in its options.
pub open spec fn requested_name(c: IfaceCfgView) -> Option<Seq<char>> {
    if opt_nonblank(c.name) is Some {
        c.name
    } else {
        strip_name_spec(c.options).1
    }
}

/// Every text field is on one line, members and ports are interface names,
/// and so is the rename target, when there is one.
pub open spec fn update_request_ok(name: Seq<char>, c: IfaceCfgView) -> bool {
    &&& iface_name_ok(name)
    &&& opt_value_ok(c.ipv4)
    &&& opt_value_ok(c.ipv4_netmask)
    &&& pairs_ok(c.ipv4_aliases)
    &&& pairs_ok(c.ipv6)
    &&& ifaces_ok(c.bridge_members)
    &&& ifaces_ok(c.lagg_ports)
    &&& opt_value_ok(c.description)
    &&& value_ok(c.options)
    &&& opt_value_ok(c.lagg_proto)
    &&& (opt_nonblank(requested_name(c)) matches Some(dn) ==> iface_name_ok(dn))
}

fn check_opt(o: &Option<String>) -> (r: ApiResult<()>)
    ensures
        r is Ok <==> opt_value_ok(o.deep_view()),
        r is Ok || is_bad(r),
{
    match o {
        Some(s) => validate_value(s.as_str()),
        None => Ok(()),
    }
}

fn check_ifaces(v: &Vec<String>) -> (r: ApiResult<()>)
    ensures
        r is Ok <==> ifaces_ok(v.deep_view()),
        r is Ok || is_bad(r),
{
    let mut i: usize = 0;
    while i < v.len()
        invariant
            i <= v@.len(),
            forall|k: int|
                0 <= k < i ==> value_ok(#[trigger] v.deep_view()[k]) && iface_name_ok(v.deep_view()[k]),
        decreases v@.len() - i,
    {
        assert(v.deep_view()[i as int] == v@[i as int]@);
        validate_value(v[i].as_str())?;
        validate_iface_name(v[i].as_str())?;
        i += 1;
    }
    Ok(())
}

fn check_alias_pairs(v: &Vec<crate::network::RcIpv4Alias>) -> (r: ApiResult<()>)
    ensures
        r is Ok <==> pairs_ok(v@.map_values(|a: crate::network::RcIpv4Alias| alias_view(a))),
        r is Ok || is_bad(r),
{
    let ghost pv = v@.map_values(|a: crate::network::RcIpv4Alias| alias_view(a));
    let mut i: usize = 0;
    while i < v.len()
        invariant
            i <= v@.len() == pv.len(),
            pv == v@.map_values(|a: crate::network::RcIpv4Alias| alias_view(a)),
            forall|k: int| 0 <= k < i ==> pair_ok(#[trigger] pv[k]),
        decreases v@.len() - i,
    {
        assert(pv[i as int] == alias_view(v@[i as int]));
        let a = validate_value(v[i].address.as_str());
        let b = validate_value(v[i].netmask.as_str());
        if !(a.is_ok() && b.is_ok()) {
            assert(!pair_ok(pv[i as int]));
            return Err(ApiError::BadRequest(owned("value must not contain newlines or null bytes")));
        }
        assert(pair_ok(pv[i as int]));
        i += 1;
    }
    Ok(())
}

fn check_v6_pairs(v: &Vec<crate::network::RcIpv6Entry>) -> (r: ApiResult<()>)
    ensures
        r is Ok <==> pairs_ok(v@.map_values(|e: crate::network::RcIpv6Entry| v6_view(e))),
        r is Ok || is_bad(r),
{
    let ghost pv = v@.map_values(|e: crate::network::RcIpv6Entry| v6_view(e));
    let mut i: usize = 0;
    while i < v.len()
        invariant
            i <= v@.len() == pv.len(),
            pv == v@.map_values(|e: crate::network::RcIpv6Entry| v6_view(e)),
            forall|k: int| 0 <= k < i ==> pair_ok(#[trigger] pv[k]),
        decreases v@.len() - i,
    {
        assert(pv[i as int] == v6_view(v@[i as int]));
        let a = validate_value(v[i].address.as_str());
        let b = validate_value(v[i].prefixlen.as_str());
        if !(a.is_ok() && b.is_ok()) {
            assert(!pair_ok(pv[i as int]));
            return Err(ApiError::BadRequest(owned("value must not contain newlines or null bytes")));
        }
        assert(pair_ok(pv[i as int]));
        i += 1;
    }
    Ok(())
}

fn check_requested(c: &IfaceRcConfConfig) -> (r: ApiResult<()>)
    ensures
        r is Ok <==> update_request_ok_fields(c@),
        r is Ok || is_bad(r),
{
    check_opt(&c.ipv4)?;
    check_opt(&c.ipv4_netmask)?;
    check_alias_pairs(&c.ipv4_aliases)?;
    check_v6_pairs(&c.ipv6)?;
    check_ifaces(&c.bridge_members)?;
    check_ifaces(&c.lagg_ports)?;
    check_opt(&c.description)?;
    validate_value(c.options.as_str())?;
    check_opt(&c.lagg_proto)?;
    Ok(())
}

/// The field checks of `update_request_ok`.
pub open spec fn update_request_ok_fields(c: IfaceCfgView) -> bool {
    &&& opt_value_ok(c.ipv4)
    &&& opt_value_ok(c.ipv4_netmask)
    &&& pairs_ok(c.ipv4_aliases)
    &&& pairs_ok(c.ipv6)
    &&& ifaces_ok(c.bridge_members)
    &&& ifaces_ok(c.lagg_ports)
    &&& opt_value_ok(c.description)
    &&& value_ok(c.options)
    &&& opt_value_ok(c.lagg_proto)
}

/// The configuration saved for a request: options without a `name <X>`
/// directive, and the rename target from `name` or, failing that, from the
/// directive.
pub open spec fn normalized(c: IfaceCfgView) -> IfaceCfgView {
    IfaceCfgView { options: strip_name_spec(c.options).0, name: requested_name(c), ..c }
}

/// Checks an update of interface `name` and normalises it.
pub fn prepare_interface_update(name: &str, cfg: &IfaceRcConfConfig) -> (r: ApiResult<IfaceRcConfConfig>)
    ensures
        r is Ok <==> update_request_ok(name@, cfg@),
        r is Ok || is_bad(r),
        r matches Ok(c) ==> c@ == normalized(cfg@),
{
    validate_iface_name(name)?;
    check_requested(cfg)?;
    let mut save = cfg.copy();
    let (clean, opt_name) = strip_name_directive(save.options.as_str());
    save.options = clean;
    let has_name = match &save.name {
        Some(n) => {
            let t = trim_str(n.as_str());
            !t.as_str().is_empty()
        },
        None => false,
    };
    if !has_name {
        save.name = opt_name;
    }
    match &save.name {
        Some(n) => {
            let t = trim_str(n.as_str());
            if !t.as_str().is_empty() {
                validate_iface_name(t.as_str())?;
            }
        },
        None => {},
    }
    assert(save@ =~= normalized(cfg@));
    Ok(save)
}

// ───────────────────────── rename ─────────────────────────

/// The interface is renamed when its target name is not its live name; the
/// target must not name another interface.
pub fn check_rename_target(target: &str, ifaces: &Vec<NetworkInterface>) -> (r: ApiResult<()>)
    ensures
        r is Ok <==> forall|i: int| 0 <= i < ifaces@.len() ==> #[trigger] ifaces@[i].name@ != target@,
        !(r is Ok) ==> (r matches Err(ApiError::Conflict(m)) && m@ == "interface name '"@ + target@
            + "' already exists"@),
{
    let mut i: usize = 0;
    while i < ifaces.len()
        invariant
            i <= ifaces@.len(),
            forall|k: int| 0 <= k < i ==> #[trigger] ifaces@[k].name@ != target@,
        decreases ifaces@.len() - i,
    {
        if str_eq(ifaces[i].name.as_str(), target) {
            let mut m = owned("interface name '");
            push_str(&mut m, target);
            push_str(&mut m, "' already exists");
            return Err(ApiError::Conflict(m));
        }
        i += 1;
    }
    Ok(())
}

// ───────────────────────── rc.conf ─────────────────────────

/// One change to rc.conf.
#[derive(Debug, Clone)]
pub enum RcChange {
    Assign(String, String),
    Delete(String),
}

pub enum RcChangeView {
    Assign(Seq<char>, Seq<char>),
    Delete(Seq<char>),
}

pub open spec fn change_view(c: RcChange) -> RcChangeView {
    match c {
        RcChange::Assign(k, v) => RcChangeView::Assign(k@, v@),
        RcChange::Delete(k) => RcChangeView::Delete(k@),
    }
}

pub open spec fn changes_view(v: Seq<RcChange>) -> Seq<RcChangeView> {
    v.map_values(|c: RcChange| change_view(c))
}

/// Set `key` to `value`, or delete it when the value is empty.
pub open spec fn set_or_delete(key: Seq<char>, value: Seq<char>) -> RcChangeView {
    if value.len() == 0 {
        RcChangeView::Delete(key)
    } else {
        RcChangeView::Assign(key, value)
    }
}

/// The three keys an interface's configuration uses, deleted.
pub open spec fn stale_keys(n: Seq<char>, target: Seq<char>) -> Seq<RcChangeView> {
    if n.len() == 0 || n == target {
        seq![]
    } else {
        seq![
            RcChangeView::Delete(iface_key(n, seq![])),
            RcChangeView::Delete(iface_key(n, "_aliases"@)),
            RcChangeView::Delete(iface_key(n, "_ipv6"@)),
        ]
    }
}

/// What is written for an interface now named `target`, created as
/// `driver` and until now named `live`: its three values under the target
/// name (deleted when empty); the `_name` directive under the driver name
/// unless the target is a default name; the keys of its former names
/// removed.
pub open spec fn rc_changes_spec(target: Seq<char>, driver: Seq<char>, live: Seq<char>, c: IfaceCfgView) -> Seq<RcChangeView> {
    seq![
        set_or_delete(iface_key(target, seq![]), primary_value_spec(c)),
        set_or_delete(iface_key(target, "_aliases"@), join(alias_words(c.ipv4_aliases), " "@)),
        set_or_delete(iface_key(target, "_ipv6"@), ipv6_value_spec(c.ipv6_mode, c.ipv6)),
        if !default_iface_name_spec(driver, target) {
            RcChangeView::Assign(iface_key(driver, "_name"@), target)
        } else {
            RcChangeView::Delete(iface_key(driver, "_name"@))
        },
    ] + stale_keys(live, target) + stale_keys(driver, target)
}

fn set_or_delete_exec(key: String, value: String) -> (r: RcChange)
    ensures
        change_view(r) == set_or_delete(key@, value@),
{
    if value.as_str().is_empty() {
        RcChange::Delete(key)
    } else {
        RcChange::Assign(key, value)
    }
}

fn push_change(v: &mut Vec<RcChange>, c: RcChange)
    ensures
        changes_view(final(v)@) == changes_view(old(v)@).push(change_view(c)),
{
    let ghost v0 = v@;
    v.push(c);
    assert(v@ == v0.push(c));
    assert(changes_view(v@) =~= changes_view(v0).push(change_view(c)));
}

fn push_stale(v: &mut Vec<RcChange>, n: &str, target: &str)
    ensures
        changes_view(final(v)@) == changes_view(old(v)@) + stale_keys(n@, target@),
{
    let ghost v0 = changes_view(v@);
    proof {
        reveal_strlit("");
    }
    if n.is_empty() || str_eq(n, target) {
        assert(v0 + Seq::<RcChangeView>::empty() =~= v0);
        return;
    }
    push_change(v, RcChange::Delete(make_iface_key(n, "")));
    push_change(v, RcChange::Delete(make_iface_key(n, "_aliases")));
    push_change(v, RcChange::Delete(make_iface_key(n, "_ipv6")));
    assert(changes_view(v@) =~= v0 + stale_keys(n@, target@));
}

/// The rc.conf changes that persist `cfg`.
pub fn rc_changes(target: &str, driver: &str, live: &str, cfg: &IfaceRcConfConfig) -> (r: Vec<RcChange>)
    ensures
        changes_view(r@) == rc_changes_spec(target@, driver@, live@, cfg@),
{
    proof {
        reveal_strlit("");
    }
    let mut v: Vec<RcChange> = Vec::new();
    assert(changes_view(v@) =~= Seq::<RcChangeView>::empty());
    push_change(&mut v, set_or_delete_exec(make_iface_key(target, ""), build_primary_value(cfg)));
    push_change(
        &mut v,
        set_or_delete_exec(make_iface_key(target, "_aliases"), build_aliases_value(&cfg.ipv4_aliases)),
    );
    push_change(
        &mut v,
        set_or_delete_exec(
            make_iface_key(target, "_ipv6"),
            build_ipv6_value(cfg.ipv6_mode.as_str(), &cfg.ipv6),
        ),
    );
    if !is_default_iface_name(driver, target) {
        push_change(&mut v, RcChange::Assign(make_iface_key(driver, "_name"), owned(target)));
    } else {
        push_change(&mut v, RcChange::Delete(make_iface_key(driver, "_name")));
    }
    let ghost head = changes_view(v@);
    push_stale(&mut v, live, target);
    push_stale(&mut v, driver, target);
    assert(changes_view(v@) =~= rc_changes_spec(target@, driver@, live@, cfg@));
    v
}

/// The audit note of an update: `updated ifconfig_<driver>`, then the
/// route-restore note, if any.
pub fn update_audit_detail(driver: &str, note: Option<&str>) -> (r: String)
    ensures
        r@ == "updated ifconfig_"@ + driver@ + match note {
            Some(n) => "; "@ + n@,
            None => seq![],
        },
{
    let mut s = owned("updated ifconfig_");
    push_str(&mut s, driver);
    let ghost s0 = s@;
    match note {
        Some(n) => {
            push_str(&mut s, "; ");
            push_str(&mut s, n);
            assert(s@ =~= s0 + ("; "@ + n@));
        },
        None => {
            assert(s@ =~= s0 + Seq::<char>::empty());
        },
    }
    s
}

} // verus!
