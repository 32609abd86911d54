//! Converging a live interface on its configuration: which `ifconfig`
//! commands to run, in which order, and what to report.
//!
//! Additions come first (primary settings, LAGG protocol and ports, bridge
//! members, IPv4 aliases, static IPv6 addresses); then, against the live
//! state read again, what the old configuration managed and the new one
//! no longer lists is removed. Nothing the configurations never managed is
//! touched.
use vstd::prelude::*;
use crate::ifconfig::{is_dhcp_word, opt_nonblank};
use crate::network::{
    IfaceRcConfConfig, IfaceCfgView, NetworkInterface, PairView, build_ifconfig_args,
    ifconfig_args_spec, ipv4_mask_to_prefix, ipv4_prefix_spec, managed_v4, managed_v4_spec,
    managed_v6, managed_v6_spec,
};
use crate::text::{join, join_strings, owned, push_str, str_eq, string_eq, trim, trim_str};

verus! {

/// One `ifconfig <iface> ...` command.
#[derive(Debug, Clone)]
pub struct IfconfigStep {
    /// The arguments after the interface name.
    pub args: Vec<String>,
    /// What a failure is reported as, before `: <error>`.
    pub label: String,
    /// When this command fails, the next step is skipped.
    pub guards_next: bool,
}

pub type StepView = (Seq<Seq<char>>, Seq<char>, bool);

pub open spec fn step_view(s: IfconfigStep) -> StepView {
    (s.args.deep_view(), s.label@, s.guards_next)
}

pub open spec fn steps_view(v: Seq<IfconfigStep>) -> Seq<StepView> {
    v.map_values(|s: IfconfigStep| step_view(s))
}

/// What the live interface has: member names, IPv4 addresses with prefix
/// lengths, IPv6 addresses.
#[derive(Debug, Clone)]
pub struct LiveIface {
    pub members: Vec<String>,
    pub v4: Vec<(String, Option<u8>)>,
    pub v6: Vec<String>,
}

/// Position of the first interface named `name`.
pub open spec fn iface_index(ifs: Seq<NetworkInterface>, name: Seq<char>) -> Option<int>
    decreases ifs.len(),
{
    if ifs.len() == 0 {
        None
    } else if ifs[0].name@ == name {
        Some(0)
    } else {
        match iface_index(ifs.drop_first(), name) {
            Some(i) => Some(i + 1),
            None => None,
        }
    }
}

/// `l` is what interface `i` has.
pub open spec fn live_of(l: LiveIface, i: NetworkInterface) -> bool {
    &&& l.members.deep_view() == i.members@.map_values(|m: crate::network::BridgeMember| m.name@)
    &&& l.v4.deep_view() == i.ipv4@.map_values(
        |a: crate::network::IpConfig| (a.address@, a.prefix_len),
    )
    &&& l.v6.deep_view() == i.ipv6@.map_values(|a: crate::network::IpConfig| a.address@)
}

pub open spec fn empty_live(l: LiveIface) -> bool {
    l.members@.len() == 0 && l.v4@.len() == 0 && l.v6@.len() == 0
}

/// The live state of interface `name`: empty when it is not there.
pub fn live_state(ifaces: &Vec<NetworkInterface>, name: &str) -> (l: LiveIface)
    ensures
        match iface_index(ifaces@, name@) {
            Some(i) => live_of(l, ifaces@[i]),
            None => empty_live(l),
        },
{
    let mut i: usize = 0;
    assert(ifaces@.skip(0) =~= ifaces@);
    while i < ifaces.len()
        invariant
            i <= ifaces@.len(),
            match iface_index(ifaces@, name@) {
                Some(k) => match iface_index(ifaces@.skip(i as int), name@) {
                    Some(m) => k == m + i,
                    None => false,
                },
                None => iface_index(ifaces@.skip(i as int), name@) is None,
            },
        decreases ifaces@.len() - i,
    {
        assert(ifaces@.skip(i as int)[0] == ifaces@[i as int]);
        if str_eq(ifaces[i].name.as_str(), name) {
            let it = &ifaces[i];
            let mut members: Vec<String> = Vec::new();
            let mut k: usize = 0;
            while k < it.members.len()
                invariant
                    k <= it.members@.len(),
                    members.deep_view() == it.members@.take(k as int).map_values(
                        |m: crate::network::BridgeMember| m.name@,
                    ),
                decreases it.members@.len() - k,
            {
                let ghost m0 = members.deep_view();
                members.push(it.members[k].name.clone());
                assert(members.deep_view() =~= m0.push(it.members@[k as int].name@));
                assert(it.members@.take(k + 1) =~= it.members@.take(k as int).push(it.members@[k as int]));
                assert(members.deep_view() =~= it.members@.take(k + 1).map_values(
                    |m: crate::network::BridgeMember| m.name@,
                ));
                k += 1;
            }
            assert(it.members@.take(it.members@.len() as int) =~= it.members@);
            let mut v4: Vec<(String, Option<u8>)> = Vec::new();
            let mut k: usize = 0;
            while k < it.ipv4.len()
                invariant
                    k <= it.ipv4@.len(),
                    v4.deep_view() == it.ipv4@.take(k as int).map_values(
                        |a: crate::network::IpConfig| (a.address@, a.prefix_len),
                    ),
                decreases it.ipv4@.len() - k,
            {
                let ghost q0 = v4.deep_view();
                v4.push((it.ipv4[k].address.clone(), it.ipv4[k].prefix_len));
                assert(v4.deep_view() =~= q0.push((it.ipv4@[k as int].address@, it.ipv4@[k as int].prefix_len)));
                assert(it.ipv4@.take(k + 1) =~= it.ipv4@.take(k as int).push(it.ipv4@[k as int]));
                assert(v4.deep_view() =~= it.ipv4@.take(k + 1).map_values(
                    |a: crate::network::IpConfig| (a.address@, a.prefix_len),
                ));
                k += 1;
            }
            assert(it.ipv4@.take(it.ipv4@.len() as int) =~= it.ipv4@);
            let mut v6: Vec<String> = Vec::new();
            let mut k: usize = 0;
            while k < it.ipv6.len()
                invariant
                    k <= it.ipv6@.len(),
                    v6.deep_view() == it.ipv6@.take(k as int).map_values(
                        |a: crate::network::IpConfig| a.address@,
                    ),
                decreases it.ipv6@.len() - k,
            {
                let ghost q0 = v6.deep_view();
                v6.push(it.ipv6[k].address.clone());
                assert(v6.deep_view() =~= q0.push(it.ipv6@[k as int].address@));
                assert(it.ipv6@.take(k + 1) =~= it.ipv6@.take(k as int).push(it.ipv6@[k as int]));
                assert(v6.deep_view() =~= it.ipv6@.take(k + 1).map_values(
                    |a: crate::network::IpConfig| a.address@,
                ));
                k += 1;
            }
            assert(it.ipv6@.take(it.ipv6@.len() as int) =~= it.ipv6@);
            return LiveIface { members, v4, v6 };
        }
        assert(ifaces@.skip(i as int).drop_first() =~= ifaces@.skip(i + 1));
        i += 1;
    }
    LiveIface { members: Vec::new(), v4: Vec::new(), v6: Vec::new() }
}

// ───────────────────────── additions ─────────────────────────

pub open spec fn simple_step(args: Seq<Seq<char>>, label: Seq<char>) -> StepView {
    (args, label, false)
}

/// The primary settings, when there are any.
pub open spec fn primary_steps(name: Seq<char>, c: IfaceCfgView) -> Seq<StepView> {
    let a = ifconfig_args_spec(c);
    if a.len() > 0 {
        seq![simple_step(a, "ifconfig "@ + name + " "@ + join(a, " "@))]
    } else {
        seq![]
    }
}

/// The LAGG protocol, when one is set.
pub open spec fn lagg_proto_steps(c: IfaceCfgView) -> Seq<StepView> {
    match opt_nonblank(c.lagg_proto) {
        Some(p) => seq![simple_step(seq!["laggproto"@, p], "laggproto "@ + p)],
        None => seq![],
    }
}

/// `<verb> <item>` for each trimmed item not blank and not a member yet.
pub open spec fn member_steps(items: Seq<Seq<char>>, members: Seq<Seq<char>>, verb: Seq<char>) -> Seq<StepView>
    decreases items.len(),
{
    if items.len() == 0 {
        seq![]
    } else {
        let t = trim(items.last());
        member_steps(items.drop_last(), members, verb) + if t.len() > 0 && !members.contains(t) {
            seq![simple_step(seq![verb, t], verb + " "@ + t)]
        } else {
            seq![]
        }
    }
}

/// The prefix length the live interface has for address `a`, if it has it.
pub open spec fn live_prefix(v4: Seq<(Seq<char>, Option<u8>)>, a: Seq<char>) -> Option<Option<u8>>
    decreases v4.len(),
{
    if v4.len() == 0 {
        None
    } else if v4[0].0 == a {
        Some(v4[0].1)
    } else {
        live_prefix(v4.drop_first(), a)
    }
}

/// The command that adds an alias.
pub open spec fn alias_add(a: Seq<char>, nm: Seq<char>) -> StepView {
    simple_step(
        if nm.len() == 0 {
            seq!["alias"@, a]
        } else {
            seq!["alias"@, a, "netmask"@, nm]
        },
        "alias "@ + a,
    )
}

/// The commands for one alias: nothing when the live interface has it with
/// the wanted prefix, or has it and no netmask is wanted; a delete then an
/// add when its netmask differs; an add when it is missing.
pub open spec fn alias_steps_one(al: PairView, v4: Seq<(Seq<char>, Option<u8>)>) -> Seq<StepView> {
    let a = trim(al.0);
    let nm = trim(al.1);
    if a.len() == 0 {
        seq![]
    } else {
        match live_prefix(v4, a) {
            Some(cur) => if nm.len() == 0 || cur == Some(ipv4_prefix_spec(nm) as u8) {
                seq![]
            } else {
                seq![(seq!["inet"@, a, "delete"@], "alias "@ + a + " netmask change"@, true), alias_add(a, nm)]
            },
            None => seq![alias_add(a, nm)],
        }
    }
}

pub open spec fn alias_steps(als: Seq<PairView>, v4: Seq<(Seq<char>, Option<u8>)>) -> Seq<StepView>
    decreases als.len(),
{
    if als.len() == 0 {
        seq![]
    } else {
        alias_steps(als.drop_last(), v4) + alias_steps_one(als.last(), v4)
    }
}

/// Static IPv6 addresses the live interface lacks.
pub open spec fn v6_steps(es: Seq<PairView>, v6: Seq<Seq<char>>) -> Seq<StepView>
    decreases es.len(),
{
    if es.len() == 0 {
        seq![]
    } else {
        let a = trim(es.last().0);
        let pl = trim(es.last().1);
        v6_steps(es.drop_last(), v6) + if a.len() == 0 || v6.contains(a) {
            seq![]
        } else {
            seq![
                simple_step(
                    if pl.len() == 0 {
                        seq!["inet6"@, a]
                    } else {
                        seq!["inet6"@, a, "prefixlen"@, pl]
                    },
                    "inet6 "@ + a,
                ),
            ]
        }
    }
}

/// Every addition, in order.
pub open spec fn added_steps(name: Seq<char>, c: IfaceCfgView, live: LiveIface) -> Seq<StepView> {
    let members = live.members.deep_view();
    primary_steps(name, c) + lagg_proto_steps(c) + member_steps(c.lagg_ports, members, "laggport"@)
        + member_steps(c.bridge_members, members, "addm"@) + alias_steps(
        c.ipv4_aliases,
        live.v4.deep_view(),
    ) + if c.ipv6_mode == "static"@ {
        v6_steps(c.ipv6, live.v6.deep_view())
    } else {
        seq![]
    }
}

fn push_step(steps: &mut Vec<IfconfigStep>, args: Vec<String>, label: String, guards_next: bool)
    ensures
        steps_view(final(steps)@) == steps_view(old(steps)@).push(
            (args.deep_view(), label@, guards_next),
        ),
{
    let ghost s0 = steps@;
    let st = IfconfigStep { args, label, guards_next };
    steps.push(st);
    assert(steps@ == s0.push(st));
    assert(steps_view(steps@) =~= steps_view(s0).push(step_view(st)));
}

fn args2(a: &str, b: &str) -> (r: Vec<String>)
    ensures
        r.deep_view() == seq![a@, b@],
{
    let mut v: Vec<String> = Vec::new();
    v.push(owned(a));
    v.push(owned(b));
    assert(v.deep_view() =~= seq![a@, b@]);
    v
}

fn label2(a: &str, b: &str) -> (r: String)
    ensures
        r@ == a@ + " "@ + b@,
{
    let mut s = owned(a);
    push_str(&mut s, " ");
    push_str(&mut s, b);
    s
}

fn cat(a: &str, b: &str) -> (r: String)
    ensures
        r@ == a@ + b@,
{
    let mut s = owned(a);
    push_str(&mut s, b);
    s
}

fn push_arg(args: &mut Vec<String>, a: &str)
    ensures
        final(args).deep_view() == old(args).deep_view().push(a@),
{
    let ghost g = args.deep_view();
    args.push(owned(a));
    assert(args.deep_view() =~= g.push(a@));
}

fn contains_str_in(list: &Vec<String>, s: &str) -> (b: bool)
    ensures
        b == list.deep_view().contains(s@),
{
    let mut i: usize = 0;
    while i < list.len()
        invariant
            i <= list@.len(),
            forall|k: int| 0 <= k < i ==> list.deep_view()[k] != s@,
        decreases list@.len() - i,
    {
        assert(list.deep_view()[i as int] == list@[i as int]@);
        if str_eq(list[i].as_str(), s) {
            assert(list.deep_view().contains(s@));
            return true;
        }
        i += 1;
    }
    false
}

fn push_member_steps(steps: &mut Vec<IfconfigStep>, items: &Vec<String>, members: &Vec<String>, verb: &str)
    ensures
        steps_view(final(steps)@) == steps_view(old(steps)@) + member_steps(
            items.deep_view(),
            members.deep_view(),
            verb@,
        ),
{
    let ghost s0 = steps_view(steps@);
    let ghost iv = items.deep_view();
    let mut i: usize = 0;
    assert(s0 + member_steps(iv.take(0), members.deep_view(), verb@) =~= s0);
    while i < items.len()
        invariant
            i <= items@.len() == iv.len(),
            iv == items.deep_view(),
            steps_view(steps@) == s0 + member_steps(iv.take(i as int), members.deep_view(), verb@),
        decreases items@.len() - i,
    {
        assert(iv[i as int] == items@[i as int]@);
        assert(iv.take(i + 1).drop_last() =~= iv.take(i as int));
        let t = trim_str(items[i].as_str());
        let ghost b = steps_view(steps@);
        if !t.as_str().is_empty() && !contains_str_in(members, t.as_str()) {
            push_step(steps, args2(verb, t.as_str()), label2(verb, t.as_str()), false);
            assert(steps_view(steps@) =~= b + seq![simple_step(seq![verb@, t@], verb@ + " "@ + t@)]);
        } else {
            assert(steps_view(steps@) =~= b + Seq::<StepView>::empty());
        }
        i += 1;
    }
    assert(iv.take(iv.len() as int) =~= iv);
}

fn find_live_prefix(v4: &Vec<(String, Option<u8>)>, a: &str) -> (r: Option<Option<u8>>)
    ensures
        r == live_prefix(v4.deep_view(), a@),
{
    let ghost dv = v4.deep_view();
    let mut i: usize = 0;
    assert(dv.skip(0) =~= dv);
    while i < v4.len()
        invariant
            i <= v4@.len() == dv.len(),
            dv == v4.deep_view(),
            live_prefix(dv.skip(i as int), a@) == live_prefix(dv, a@),
        decreases v4@.len() - i,
    {
        assert(dv.skip(i as int)[0] == dv[i as int]);
        assert(dv[i as int] == (v4@[i as int].0@, v4@[i as int].1));
        if str_eq(v4[i].0.as_str(), a) {
            return Some(v4[i].1);
        }
        assert(dv.skip(i as int).drop_first() =~= dv.skip(i + 1));
        i += 1;
    }
    None
}

fn alias_add_step(steps: &mut Vec<IfconfigStep>, a: &str, nm: &str)
    ensures
        steps_view(final(steps)@) == steps_view(old(steps)@).push(alias_add(a@, nm@)),
{
    let mut args = args2("alias", a);
    if !nm.is_empty() {
        push_arg(&mut args, "netmask");
        push_arg(&mut args, nm);
        assert(args.deep_view() =~= seq!["alias"@, a@, "netmask"@, nm@]);
    }
    push_step(steps, args, cat("alias ", a), false);
}

fn push_alias_steps_one(steps: &mut Vec<IfconfigStep>, al: &crate::network::RcIpv4Alias, v4: &Vec<(String, Option<u8>)>)
    ensures
        steps_view(final(steps)@) == steps_view(old(steps)@) + alias_steps_one(
            crate::network::alias_view(*al),
            v4.deep_view(),
        ),
{
    let ghost s0 = steps_view(steps@);
    let a = trim_str(al.address.as_str());
    let nm = trim_str(al.netmask.as_str());
    if a.as_str().is_empty() {
        assert(s0 + Seq::<StepView>::empty() =~= s0);
        return;
    }
    match find_live_prefix(v4, a.as_str()) {
        Some(cur) => {
            if nm.as_str().is_empty() {
                assert(s0 + Seq::<StepView>::empty() =~= s0);
                return;
            }
            let want = ipv4_mask_to_prefix(nm.as_str());
            if cur == Some(want) {
                assert(s0 + Seq::<StepView>::empty() =~= s0);
                return;
            }
            let mut del = args2("inet", a.as_str());
            push_arg(&mut del, "delete");
            assert(del.deep_view() =~= seq!["inet"@, a@, "delete"@]);
            let mut lab = cat("alias ", a.as_str());
            push_str(&mut lab, " netmask change");
            push_step(steps, del, lab, true);
            alias_add_step(steps, a.as_str(), nm.as_str());
            assert(steps_view(steps@) =~= s0 + alias_steps_one(
                crate::network::alias_view(*al),
                v4.deep_view(),
            ));
        },
        None => {
            alias_add_step(steps, a.as_str(), nm.as_str());
            assert(steps_view(steps@) =~= s0 + alias_steps_one(
                crate::network::alias_view(*al),
                v4.deep_view(),
            ));
        },
    }
}

fn push_alias_steps(steps: &mut Vec<IfconfigStep>, cfg: &IfaceRcConfConfig, v4: &Vec<(String, Option<u8>)>)
    ensures
        steps_view(final(steps)@) == steps_view(old(steps)@) + alias_steps(
            cfg@.ipv4_aliases,
            v4.deep_view(),
        ),
{
    let ghost s0 = steps_view(steps@);
    let ghost als = cfg@.ipv4_aliases;
    let mut i: usize = 0;
    assert(s0 + alias_steps(als.take(0), v4.deep_view()) =~= s0);
    while i < cfg.ipv4_aliases.len()
        invariant
            i <= cfg.ipv4_aliases@.len() == als.len(),
            als == cfg@.ipv4_aliases,
            steps_view(steps@) == s0 + alias_steps(als.take(i as int), v4.deep_view()),
        decreases cfg.ipv4_aliases@.len() - i,
    {
        assert(als.take(i + 1).drop_last() =~= als.take(i as int));
        assert(als[i as int] == crate::network::alias_view(cfg.ipv4_aliases@[i as int]));
        let ghost b = steps_view(steps@);
        push_alias_steps_one(steps, &cfg.ipv4_aliases[i], v4);
        assert(steps_view(steps@) =~= s0 + alias_steps(als.take(i + 1), v4.deep_view()));
        i += 1;
    }
    assert(als.take(als.len() as int) =~= als);
}

fn push_v6_steps(steps: &mut Vec<IfconfigStep>, cfg: &IfaceRcConfConfig, v6: &Vec<String>)
    ensures
        steps_view(final(steps)@) == steps_view(old(steps)@) + v6_steps(cfg@.ipv6, v6.deep_view()),
{
    let ghost s0 = steps_view(steps@);
    let ghost es = cfg@.ipv6;
    let mut i: usize = 0;
    assert(s0 + v6_steps(es.take(0), v6.deep_view()) =~= s0);
    while i < cfg.ipv6.len()
        invariant
            i <= cfg.ipv6@.len() == es.len(),
            es == cfg@.ipv6,
            steps_view(steps@) == s0 + v6_steps(es.take(i as int), v6.deep_view()),
        decreases cfg.ipv6@.len() - i,
    {
        assert(es.take(i + 1).drop_last() =~= es.take(i as int));
        assert(es[i as int] == crate::network::v6_view(cfg.ipv6@[i as int]));
        let a = trim_str(cfg.ipv6[i].address.as_str());
        let pl = trim_str(cfg.ipv6[i].prefixlen.as_str());
        let ghost b = steps_view(steps@);
        if !a.as_str().is_empty() && !contains_str_in(v6, a.as_str()) {
            let mut args = args2("inet6", a.as_str());
            if !pl.as_str().is_empty() {
                push_arg(&mut args, "prefixlen");
                push_arg(&mut args, pl.as_str());
                assert(args.deep_view() =~= seq!["inet6"@, a@, "prefixlen"@, pl@]);
            }
            push_step(steps, args, cat("inet6 ", a.as_str()), false);
        }
        assert(steps_view(steps@) =~= s0 + v6_steps(es.take(i + 1), v6.deep_view()));
        i += 1;
    }
    assert(es.take(es.len() as int) =~= es);
}

/// The additions for interface `name`: what `cfg` asks for that the live
/// interface does not have yet.
pub fn plan_additions(name: &str, cfg: &IfaceRcConfConfig, live: &LiveIface) -> (r: Vec<IfconfigStep>)
    ensures
        steps_view(r@) == added_steps(name@, cfg@, *live),
{
    let mut steps: Vec<IfconfigStep> = Vec::new();
    assert(steps_view(steps@) =~= Seq::<StepView>::empty());
    let primary = build_ifconfig_args(cfg);
    if primary.len() > 0 {
        let mut lab = cat("ifconfig ", name);
        push_str(&mut lab, " ");
        let j = join_strings(&primary, " ");
        push_str(&mut lab, j.as_str());
        push_step(&mut steps, primary, lab, false);
    }
    assert(steps_view(steps@) =~= primary_steps(name@, cfg@));
    let ghost s1 = steps_view(steps@);
    match &cfg.lagg_proto {
        Some(p) => {
            let t = trim_str(p.as_str());
            if !t.as_str().is_empty() {
                push_step(&mut steps, args2("laggproto", t.as_str()), cat("laggproto ", t.as_str()), false);
            }
        },
        None => {},
    }
    assert(steps_view(steps@) =~= s1 + lagg_proto_steps(cfg@));
    push_member_steps(&mut steps, &cfg.lagg_ports, &live.members, "laggport");
    push_member_steps(&mut steps, &cfg.bridge_members, &live.members, "addm");
    push_alias_steps(&mut steps, cfg, &live.v4);
    let ghost s5 = steps_view(steps@);
    if str_eq(cfg.ipv6_mode.as_str(), "static") {
        push_v6_steps(&mut steps, cfg, &live.v6);
    } else {
        assert(steps_view(steps@) =~= s5 + Seq::<StepView>::empty());
    }
    steps
}

// ───────────────────────── removals ─────────────────────────

/// `delete` of each address the old configuration managed that the new one
/// does not and that the interface still has.
pub open spec fn addr_removals(
    old_m: Seq<Seq<char>>,
    new_m: Seq<Seq<char>>,
    live: Seq<Seq<char>>,
    family: Seq<char>,
) -> Seq<StepView>
    decreases old_m.len(),
{
    if old_m.len() == 0 {
        seq![]
    } else {
        let a = old_m.last();
        addr_removals(old_m.drop_last(), new_m, live, family) + if new_m.contains(a)
            || !live.contains(a) {
            seq![]
        } else {
            seq![simple_step(seq![family, a, "delete"@], "delete "@ + family + " "@ + a)]
        }
    }
}

/// Whether some item, trimmed, is `t`.
pub open spec fn lists_trimmed(items: Seq<Seq<char>>, t: Seq<char>) -> bool {
    exists|k: int| 0 <= k < items.len() && trim(#[trigger] items[k]) == t
}

/// `<verb>` of each member the old configuration listed that the new one
/// does not and that the interface had.
pub open spec fn member_removals(
    old_i: Seq<Seq<char>>,
    new_i: Seq<Seq<char>>,
    members: Seq<Seq<char>>,
    verb: Seq<char>,
) -> Seq<StepView>
    decreases old_i.len(),
{
    if old_i.len() == 0 {
        seq![]
    } else {
        let t = trim(old_i.last());
        member_removals(old_i.drop_last(), new_i, members, verb) + if t.len() == 0
            || lists_trimmed(new_i, t) || !members.contains(t) {
            seq![]
        } else {
            seq![simple_step(seq![verb, t], verb + " "@ + t)]
        }
    }
}

/// Every removal, in order. `live_v4` and `live_v6` are the addresses read
/// after the additions; `members` the members read before them.
pub open spec fn removal_steps(
    old: IfaceCfgView,
    c: IfaceCfgView,
    live_v4: Seq<Seq<char>>,
    live_v6: Seq<Seq<char>>,
    members: Seq<Seq<char>>,
) -> Seq<StepView> {
    addr_removals(managed_v4_spec(old), managed_v4_spec(c), live_v4, "inet"@) + addr_removals(
        managed_v6_spec(old),
        managed_v6_spec(c),
        live_v6,
        "inet6"@,
    ) + member_removals(old.bridge_members, c.bridge_members, members, "deletem"@)
        + member_removals(old.lagg_ports, c.lagg_ports, members, "-laggport"@)
}

fn push_addr_removals(steps: &mut Vec<IfconfigStep>, old_m: &Vec<String>, new_m: &Vec<String>, live: &Vec<String>, family: &str)
    ensures
        steps_view(final(steps)@) == steps_view(old(steps)@) + addr_removals(
            old_m.deep_view(),
            new_m.deep_view(),
            live.deep_view(),
            family@,
        ),
{
    let ghost s0 = steps_view(steps@);
    let ghost ov = old_m.deep_view();
    let mut i: usize = 0;
    assert(s0 + addr_removals(ov.take(0), new_m.deep_view(), live.deep_view(), family@) =~= s0);
    while i < old_m.len()
        invariant
            i <= old_m@.len() == ov.len(),
            ov == old_m.deep_view(),
            steps_view(steps@) == s0 + addr_removals(
                ov.take(i as int),
                new_m.deep_view(),
                live.deep_view(),
                family@,
            ),
        decreases old_m@.len() - i,
    {
        assert(ov[i as int] == old_m@[i as int]@);
        assert(ov.take(i + 1).drop_last() =~= ov.take(i as int));
        let a = old_m[i].as_str();
        let ghost b = steps_view(steps@);
        if !(contains_str_in(new_m, a) || !contains_str_in(live, a)) {
            let mut args = args2(family, a);
            push_arg(&mut args, "delete");
            assert(args.deep_view() =~= seq![family@, a@, "delete"@]);
            let mut lab = cat("delete ", family);
            push_str(&mut lab, " ");
            push_str(&mut lab, a);
            push_step(steps, args, lab, false);
        }
        assert(steps_view(steps@) =~= s0 + addr_removals(
            ov.take(i + 1),
            new_m.deep_view(),
            live.deep_view(),
            family@,
        ));
        i += 1;
    }
    assert(ov.take(ov.len() as int) =~= ov);
}

fn lists_trimmed_exec(items: &Vec<String>, t: &str) -> (b: bool)
    ensures
        b == lists_trimmed(items.deep_view(), t@),
{
    let mut i: usize = 0;
    while i < items.len()
        invariant
            i <= items@.len(),
            forall|k: int| 0 <= k < i ==> trim(#[trigger] items.deep_view()[k]) != t@,
        decreases items@.len() - i,
    {
        assert(items.deep_view()[i as int] == items@[i as int]@);
        let x = trim_str(items[i].as_str());
        if str_eq(x.as_str(), t) {
            return true;
        }
        i += 1;
    }
    false
}

fn push_member_removals(steps: &mut Vec<IfconfigStep>, old_i: &Vec<String>, new_i: &Vec<String>, members: &Vec<String>, verb: &str)
    ensures
        steps_view(final(steps)@) == steps_view(old(steps)@) + member_removals(
            old_i.deep_view(),
            new_i.deep_view(),
            members.deep_view(),
            verb@,
        ),
{
    let ghost s0 = steps_view(steps@);
    let ghost ov = old_i.deep_view();
    let mut i: usize = 0;
    assert(s0 + member_removals(ov.take(0), new_i.deep_view(), members.deep_view(), verb@) =~= s0);
    while i < old_i.len()
        invariant
            i <= old_i@.len() == ov.len(),
            ov == old_i.deep_view(),
            steps_view(steps@) == s0 + member_removals(
                ov.take(i as int),
                new_i.deep_view(),
                members.deep_view(),
                verb@,
            ),
        decreases old_i@.len() - i,
    {
        assert(ov[i as int] == old_i@[i as int]@);
        assert(ov.take(i + 1).drop_last() =~= ov.take(i as int));
        let t = trim_str(old_i[i].as_str());
        if !(t.as_str().is_empty() || lists_trimmed_exec(new_i, t.as_str()) || !contains_str_in(
            members,
            t.as_str(),
        )) {
            push_step(steps, args2(verb, t.as_str()), label2(verb, t.as_str()), false);
        }
        assert(steps_view(steps@) =~= s0 + member_removals(
            ov.take(i + 1),
            new_i.deep_view(),
            members.deep_view(),
            verb@,
        ));
        i += 1;
    }
    assert(ov.take(ov.len() as int) =~= ov);
}

/// The removals: what `old` managed that `cfg` no longer lists, and that
/// the interface still has.
pub fn plan_removals(
    old: &IfaceRcConfConfig,
    cfg: &IfaceRcConfConfig,
    live_v4: &Vec<String>,
    live_v6: &Vec<String>,
    members: &Vec<String>,
) -> (r: Vec<IfconfigStep>)
    ensures
        steps_view(r@) == removal_steps(
            old@,
            cfg@,
            live_v4.deep_view(),
            live_v6.deep_view(),
            members.deep_view(),
        ),
{
    let mut steps: Vec<IfconfigStep> = Vec::new();
    assert(steps_view(steps@) =~= Seq::<StepView>::empty());
    let old4 = managed_v4(old);
    let new4 = managed_v4(cfg);
    push_addr_removals(&mut steps, &old4, &new4, live_v4, "inet");
    let old6 = managed_v6(old);
    let new6 = managed_v6(cfg);
    push_addr_removals(&mut steps, &old6, &new6, live_v6, "inet6");
    push_member_removals(&mut steps, &old.bridge_members, &cfg.bridge_members, members, "deletem");
    push_member_removals(&mut steps, &old.lagg_ports, &cfg.lagg_ports, members, "-laggport");
    assert(steps_view(steps@) =~= removal_steps(
        old@,
        cfg@,
        live_v4.deep_view(),
        live_v6.deep_view(),
        members.deep_view(),
    ));
    steps
}

// ───────────────────────── running the plan ─────────────────────────

/// What the commands printed, and the failures.
#[derive(Debug, Clone)]
pub struct ApplyLog {
    pub output: String,
    pub errors: Vec<String>,
}

impl ApplyLog {
    pub fn new() -> (l: Self)
        ensures
            l.output@.len() == 0,
            l.errors@.len() == 0,
    {
        ApplyLog { output: String::new(), errors: Vec::new() }
    }

    /// Records how a step went (the caller runs the steps in order, and
    /// does not run the one after a step for which this returns `true`).
    /// What a guarding step (the delete before an alias's netmask changes)
    /// prints is not kept.
    pub fn record(&mut self, step: &IfconfigStep, result: Result<String, String>) -> (skip_next: bool)
        ensures
            match result {
                Ok(o) => final(self).output@ == old(self).output@ + (if step.guards_next {
                    Seq::<char>::empty()
                } else {
                    o@
                }) && final(self).errors.deep_view() == old(self).errors.deep_view() && !skip_next,
                Err(e) => final(self).output@ == old(self).output@ && final(self).errors.deep_view()
                    == old(self).errors.deep_view().push(step.label@ + ": "@ + e@) && skip_next
                    == step.guards_next,
            },
    {
        match result {
            Ok(o) => {
                if !step.guards_next {
                    push_str(&mut self.output, o.as_str());
                } else {
                    assert(self.output@ + Seq::<char>::empty() =~= self.output@);
                }
                false
            },
            Err(e) => {
                let mut m = step.label.clone();
                push_str(&mut m, ": ");
                push_str(&mut m, e.as_str());
                let ghost e0 = self.errors.deep_view();
                self.errors.push(m);
                assert(self.errors.deep_view() =~= e0.push(step.label@ + ": "@ + e@));
                step.guards_next
            },
        }
    }

    /// The output when every step succeeded, else the failures joined by `; `.
    pub fn finish(self) -> (r: Result<String, String>)
        ensures
            self.errors@.len() == 0 ==> (r matches Ok(o) && o@ == self.output@),
            self.errors@.len() > 0 ==> (r matches Err(e) && e@ == join(self.errors.deep_view(), "; "@)),
    {
        if self.errors.len() == 0 {
            Ok(self.output)
        } else {
            Err(join_strings(&self.errors, "; "))
        }
    }
}

/// A plan being run, one command at a time: the caller asks which step is
/// due, runs it, and hands back its result.
#[derive(Debug, Clone)]
pub struct PlanRun {
    pub next: usize,
    pub log: ApplyLog,
}

impl PlanRun {
    pub fn start() -> (p: Self)
        ensures
            p.next == 0,
            p.log.output@.len() == 0,
            p.log.errors@.len() == 0,
    {
        PlanRun { next: 0, log: ApplyLog::new() }
    }

    /// The index of the step to run now; none once the plan is done.
    pub fn due(&self, steps: &Vec<IfconfigStep>) -> (r: Option<usize>)
        ensures
            r == (if self.next < steps@.len() {
                Some(self.next)
            } else {
                None::<usize>
            }),
    {
        if self.next < steps.len() {
            Some(self.next)
        } else {
            None
        }
    }

    /// Records the result of the step that was due and moves past it, and
    /// past the step after it too when a guarding step failed (the alias is
    /// then not re-added). Every other failure lets the plan go on.
    pub fn done(&mut self, steps: &Vec<IfconfigStep>, result: Result<String, String>)
        requires
            old(self).next < steps@.len(),
        ensures
            ({
                let step = steps@[old(self).next as int];
                let skip = result is Err && step.guards_next;
                let after = old(self).next + 1 + (if skip { 1int } else { 0int });
                &&& final(self).next == (if after < steps@.len() { after } else { steps@.len() as int })
                &&& match result {
                    Ok(o) => final(self).log.output@ == old(self).log.output@ + (if step.guards_next {
                        Seq::<char>::empty()
                    } else {
                        o@
                    }) && final(self).log.errors.deep_view() == old(self).log.errors.deep_view(),
                    Err(e) => final(self).log.output@ == old(self).log.output@
                        && final(self).log.errors.deep_view() == old(self).log.errors.deep_view().push(
                        step.label@ + ": "@ + e@,
                    ),
                }
            }),
    {
        let step = &steps[self.next];
        let skip = self.log.record(step, result);
        let total = steps.len();
        if skip && self.next + 1 < total {
            self.next = self.next + 2;
        } else {
            self.next = self.next + 1;
        }
    }

    /// The outcome once the plan is done: what the commands printed, or
    /// the failures joined by `; `.
    pub fn finish(self) -> (r: Result<String, String>)
        ensures
            self.log.errors@.len() == 0 ==> (r matches Ok(o) && o@ == self.log.output@),
            self.log.errors@.len() > 0 ==> (r matches Err(e) && e@ == join(self.log.errors.deep_view(), "; "@)),
    {
        self.log.finish()
    }
}

/// The error when the live state of the interface cannot be read before
/// the plan is made.
pub fn live_read_error(e: &str) -> (r: String)
    ensures
        r@ == "failed to read live interfaces: "@ + e@,
{
    let mut m = crate::text::owned("failed to read live interfaces: ");
    push_str(&mut m, e);
    m
}

} // verus!
