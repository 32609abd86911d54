use fwp::static_routes::{build_route_args, parse_route_value};
use fwp::ifapply::{live_read_error, IfconfigStep, PlanRun};
use fwp::ifconfig::{build_primary_value, parse_ifconfig_tokens, strip_name_directive, merge_rcconf};
use fwp::network::{
    flags_to_strings, ipv4_mask_to_prefix, is_default_iface_name, managed_v4, managed_v6,
    resolve_target_name, route_flags_to_string, same_gw, validate_ipv4, validate_ipv6,
    IfaceRcConfConfig, RcIpv4Alias, RcIpv6Entry, IFF_BROADCAST, IFF_RUNNING, IFF_UP, RTF_GATEWAY,
    RTF_STATIC, RTF_UP,
};
use fwp::rcvars::RcVars;
use fwp::gateway::{restore_note, restore_plan};

#[test]
fn flags_decode() {
    let f = flags_to_strings(IFF_UP | IFF_BROADCAST | IFF_RUNNING);
    assert!(f.contains(&"UP".to_string()));
    assert!(f.contains(&"BROADCAST".to_string()));
    assert!(f.contains(&"RUNNING".to_string()));
}

#[test]
fn route_flags_string() {
    let s = route_flags_to_string(RTF_UP | RTF_GATEWAY | RTF_STATIC);
    assert!(s.contains('U'));
    assert!(s.contains('G'));
    assert!(s.contains('S'));
}

#[test]
fn ipv4_prefix_calc() {
    assert_eq!(ipv4_mask_to_prefix("255.255.255.0"), 24);
    assert_eq!(ipv4_mask_to_prefix("255.255.0.0"), 16);
    assert_eq!(ipv4_mask_to_prefix("255.255.255.255"), 32);
    assert_eq!(ipv4_mask_to_prefix("0.0.0.0"), 0);
}

#[test]
fn parse_description_single_quoted() {
    // New format: single-quoted description.
    let val = "description 'Hello World' up";
    let parsed = parse_ifconfig_tokens(val);
    assert_eq!(parsed.description.as_deref(), Some("Hello World"));
    assert!(parsed.is_up);
}

#[test]
fn parse_description_double_quoted() {
    // Old rc.conf may have double quotes.
    let val = r#"description "with hello" up"#;
    let parsed = parse_ifconfig_tokens(val);
    assert_eq!(parsed.description.as_deref(), Some("with hello"));
    assert!(parsed.is_up);
}

#[test]
fn parse_description_unquoted() {
    // Single word, no quotes.
    let val = "description WAN up";
    let parsed = parse_ifconfig_tokens(val);
    assert_eq!(parsed.description.as_deref(), Some("WAN"));
    assert!(parsed.is_up);
}

#[test]
fn parse_strips_name_directive() {
    // The `name <X>` directive must be routed to `parsed.name`, not options.
    let parsed = parse_ifconfig_tokens("inet 10.0.0.1/24 name vvswitch up");
    assert_eq!(parsed.name.as_deref(), Some("vvswitch"));
    assert!(
        !parsed.options_tokens.iter().any(|t| t == "name"),
        "name must not leak into options_tokens"
    );
    assert!(parsed.is_up);
    assert_eq!(parsed.ipv4.as_deref(), Some("10.0.0.1"));
}

#[test]
fn strip_name_directive_extracts_and_cleans() {
    let (clean, name) = strip_name_directive("media 1000baseTX name wan0 mediaopt full-duplex");
    assert_eq!(name.as_deref(), Some("wan0"));
    assert_eq!(clean, "media 1000baseTX mediaopt full-duplex");
}

#[test]
fn strip_name_directive_no_name() {
    let (clean, name) = strip_name_directive("media 1000baseTX mediaopt full-duplex");
    assert!(name.is_none());
    assert_eq!(clean, "media 1000baseTX mediaopt full-duplex");
}

#[test]
fn build_primary_value_omits_name() {
    // With name routed to cfg.name and options clean, the built value must
    // not contain a `name` token (avoids the rename-during-config bug).
    let cfg = IfaceRcConfConfig {
        ipv4: Some("10.0.0.1".into()),
        ipv4_netmask: Some("255.255.255.0".into()),
        is_up: true,
        name: Some("wan0".into()),
        ..Default::default()
    };
    let val = build_primary_value(&cfg);
    assert!(!val.contains("name"), "built value must not contain 'name': {val}");
    assert!(val.contains("inet 10.0.0.1"));
    assert!(val.contains("up"));
}

#[test]
fn is_default_iface_name_bridge() {
    assert!(is_default_iface_name("bridge0", "bridge0"));
    assert!(!is_default_iface_name("bridge0", "vm-public"));
}

#[test]
fn is_default_iface_name_epair() {
    // epair driver name is the base; both halves are default names.
    assert!(is_default_iface_name("epair0", "epair0a"));
    assert!(is_default_iface_name("epair0", "epair0b"));
    assert!(is_default_iface_name("epair100", "epair100a"));
    assert!(is_default_iface_name("epair100", "epair100b"));
    // A different base or a custom name is a rename.
    assert!(!is_default_iface_name("epair0", "epair5a"));
    assert!(!is_default_iface_name("epair0", "myport"));
}

#[test]
fn parse_epair_default_name_is_none() {
    // A default-named epair (epair100a) must NOT report a rename target,
    // even though its driver base name ("epair100") differs.
    let kv = RcVars { entries: Vec::new() };
    let cfg = merge_rcconf("epair100a", "epair100", &kv);
    assert_eq!(cfg.name, None, "default-named epair must not be treated as renamed: {cfg:?}");
}

#[test]
fn managed_v4_excludes_dhcp_primary() {
    let mut cfg = IfaceRcConfConfig::default();
    cfg.ipv4 = Some("DHCP".into());
    cfg.ipv4_aliases = vec![RcIpv4Alias {
        address: "10.0.0.5".into(),
        netmask: "255.255.255.0".into(),
    }];
    assert_eq!(managed_v4(&cfg), vec!["10.0.0.5"]);

    cfg.ipv4 = Some("10.0.0.1".into());
    assert_eq!(managed_v4(&cfg), vec!["10.0.0.1", "10.0.0.5"]);

    cfg.ipv4 = Some("".into());
    assert_eq!(managed_v4(&cfg), vec!["10.0.0.5"]);
}

#[test]
fn managed_v6_static_only_and_no_link_local() {
    let mut cfg = IfaceRcConfConfig::default();
    cfg.ipv6_mode = "slaac".into();
    cfg.ipv6 = vec![RcIpv6Entry {
        address: "2001:db8::1".into(),
        prefixlen: "64".into(),
    }];
    assert!(managed_v6(&cfg).is_empty(), "slaac addresses are not ours");

    cfg.ipv6_mode = "static".into();
    cfg.ipv6.push(RcIpv6Entry {
        address: "fe80::1".into(),
        prefixlen: "64".into(),
    });
    assert_eq!(managed_v6(&cfg), vec!["2001:db8::1"]);
}

#[test]
fn validate_ipv6_accepts_zone_suffix() {
    assert!(validate_ipv6("fe80::1%em0").is_ok());
    assert!(validate_ipv6("2001:db8::1").is_ok());
    assert!(validate_ipv6("fe80::1%").is_err());
    assert!(validate_ipv6("fe80::1%em;0").is_err());
    assert!(validate_ipv6("192.168.1.1").is_err());
}

#[test]
fn validate_ipv4_rejects_v6() {
    assert!(validate_ipv4("192.168.1.1").is_ok());
    assert!(validate_ipv4("fe80::1").is_err());
    assert!(validate_ipv4(" DHCP").is_err());
}

#[test]
fn same_gw_ignores_zone() {
    assert!(same_gw("fe80::1%em0", "fe80::1%em0"));
    assert!(same_gw("fe80::1%em0", "fe80::1"));
    assert!(!same_gw("fe80::1%em0", "fe80::2%em0"));
    assert!(same_gw("192.168.1.1", "192.168.1.1"));
}

#[test]
fn resolve_target_name_matrix() {
    let none: Vec<String> = Vec::new();
    // Explicit custom name → that name (rename).
    assert_eq!(resolve_target_name(Some("wan0"), "em0", "em0", &none), "wan0");
    // Explicit driver name → same, via the normal rename path.
    assert_eq!(resolve_target_name(Some("em0"), "em0", "mgmt0", &none), "em0");
    // Whitespace-only is treated as empty.
    assert_eq!(resolve_target_name(Some("  "), "em0", "mgmt0", &none), "em0");
    // Empty + default-named → keep live name (no rename).
    assert_eq!(resolve_target_name(None, "em0", "em0", &none), "em0");
    // Empty + unknown driver → keep live (cannot know the default).
    assert_eq!(resolve_target_name(None, "", "em0", &none), "em0");
    // Empty + renamed → revert to the driver name.
    assert_eq!(resolve_target_name(None, "em0", "mgmt0", &none), "em0");
    // Empty + epair half → default name, keep live (NOT the base "epair0").
    assert_eq!(resolve_target_name(None, "epair0", "epair0a", &none), "epair0a");
    assert_eq!(resolve_target_name(None, "epair100", "epair100b", &none), "epair100b");
    // Empty + renamed epair half → the FREE half of the pair.
    assert_eq!(
        resolve_target_name(None, "epair0", "left0", &vec!["epair0a".to_string()]),
        "epair0b"
    );
    assert_eq!(
        resolve_target_name(None, "epair0", "right0", &vec!["epair0b".to_string()]),
        "epair0a"
    );
    // Both halves free → the a side.
    assert_eq!(resolve_target_name(None, "epair0", "left0", &none), "epair0a");
}

#[test]
fn restore_default_routes_noop_when_in_effect() {
    let configured = Some("192.168.1.1".to_string());
    let live = Some("192.168.1.1".to_string());
    let plan = restore_plan(&configured, &live, &None, &None);
    assert!(plan.is_empty(), "gateway in effect must not trigger a restore");
    assert_eq!(restore_note(&Vec::new()), None, "gateway in effect must not trigger a restore");
}

#[test]
fn plan_run_skips_readd_after_failed_drift_delete() {
    let step = |args: &[&str], label: &str, guards: bool| IfconfigStep {
        args: args.iter().map(|s| s.to_string()).collect(),
        label: label.to_string(),
        guards_next: guards,
    };
    let steps = vec![
        step(&["mtu", "9000"], "ifconfig em0 mtu 9000", false),
        step(&["inet", "10.0.0.2", "delete"], "alias 10.0.0.2 netmask change", true),
        step(&["alias", "10.0.0.2", "netmask", "255.255.0.0"], "alias 10.0.0.2", false),
        step(&["addm", "em1"], "addm em1", false),
    ];
    let mut run = PlanRun::start();
    let mut ran = Vec::new();
    let mut results = vec![Ok("mtu set\n".to_string()), Err("busy".to_string()), Ok("added\n".to_string())].into_iter();
    while let Some(i) = run.due(&steps) {
        ran.push(i);
        let r = results.next().unwrap();
        run.done(&steps, r);
    }
    assert_eq!(ran, vec![0, 1, 3]);
    assert_eq!(run.finish(), Err("alias 10.0.0.2 netmask change: busy".to_string()));

    let mut run = PlanRun::start();
    let mut outs = vec![Ok("a".to_string()), Ok("deleted".to_string()), Ok("b".to_string()), Err("no such member".to_string())].into_iter();
    while run.due(&steps).is_some() {
        run.done(&steps, outs.next().unwrap());
    }
    assert_eq!(run.finish(), Err("addm em1: no such member".to_string()));
    let mut run = PlanRun::start();
    let mut outs = vec!["a", "deleted", "b", "c"].into_iter();
    while run.due(&steps).is_some() {
        run.done(&steps, Ok(outs.next().unwrap().to_string()));
    }
    assert_eq!(run.finish(), Ok("abc".to_string()));
    assert_eq!(live_read_error("boom"), "failed to read live interfaces: boom");
}

#[test]
fn route_written_reads_back() {
    let cases = [
        ("10.0.0.0/8", "192.168.1.1", false, false),
        ("192.168.5.7", "10.0.0.1", false, true),
        ("2001:db8::/32", "fe80::1%em0", true, false),
        ("2001:db8::5", "2001:db8::1", true, true),
    ];
    for (d, g, v6, host) in cases {
        let v = build_route_args(d, g, v6, host);
        assert_eq!(parse_route_value(&v), Some((d.to_string(), g.to_string(), v6, host)));
    }
    assert_eq!(build_route_args("10.0.0.0/8", "192.168.1.1", false, false), "-net 10.0.0.0/8 192.168.1.1");
}

#[test]
fn name_directive_stripped_once_and_for_all() {
    for s in ["up name lan0 mtu 1500", "name a name b  promisc", "  media   autoselect ", "name"] {
        let (c, _) = strip_name_directive(s);
        assert!(!c.split_whitespace().any(|t| t == "name"));
        assert_eq!(strip_name_directive(&c), (c.clone(), None));
    }
    assert_eq!(strip_name_directive("  media   autoselect "), ("media autoselect".to_string(), None));
    assert_eq!(strip_name_directive("name a name b  promisc"), ("promisc".to_string(), Some("b".to_string())));
}

#[test]
fn primary_value_reads_back() {
    for up in [true, false] {
        let cfg = IfaceRcConfConfig {
            ipv4: Some("10.0.0.1".into()),
            ipv4_netmask: Some("255.255.255.0".into()),
            is_up: up,
            ..Default::default()
        };
        let p = parse_ifconfig_tokens(&build_primary_value(&cfg));
        assert_eq!(p.ipv4.as_deref(), Some("10.0.0.1"));
        assert_eq!(p.ipv4_netmask.as_deref(), Some("255.255.255.0"));
        assert_eq!(p.is_up, up);
        assert!(p.bridge_members.is_empty() && p.mtu.is_none() && p.name.is_none());
    }
}

#[test]
fn primary_value_with_members_and_mtu_reads_back() {
    let cfg = IfaceRcConfConfig {
        ipv4: Some("192.168.7.1".into()),
        ipv4_netmask: Some("255.255.255.0".into()),
        bridge_members: vec!["em0".into(), "tap3".into()],
        mtu: Some(9000),
        is_up: true,
        ..Default::default()
    };
    let p = parse_ifconfig_tokens(&build_primary_value(&cfg));
    assert_eq!(p.ipv4.as_deref(), Some("192.168.7.1"));
    assert_eq!(p.ipv4_netmask.as_deref(), Some("255.255.255.0"));
    assert_eq!(p.bridge_members, vec!["em0", "tap3"]);
    assert_eq!(p.mtu, Some(9000));
    assert!(p.is_up && p.name.is_none() && p.options_tokens.is_empty());
}
