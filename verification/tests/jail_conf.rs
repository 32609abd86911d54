use fwp::error::ApiError;
use fwp::jail_conf::{
    append_block, generate_jail_block, generate_jail_block_from_params, parse_global_params,
    parse_jail_conf, parse_jail_conf_from_str, parse_param, remove_jail_block, replace_block_text,
    substitute_vars,
};

const CONF: &str = "# global\nexec.start = \"/bin/sh /etc/rc\";\nmount.devfs;\npath = \"/jails/${name}\";\n\nweb {\n    host.hostname = \"web.example.org\";\n    ip4.addr = 10.0.0.2;\n    path = \"/usr/jails/$name\";\n}\n/* db {\n   x;\n*/\ndb {\n  allow.raw_sockets = 1; # raw\n}\n";

fn last<'a>(ps: &'a [(String, String)], key: &str) -> Option<&'a str> {
    ps.iter().rev().find(|(k, _)| k == key).map(|(_, v)| v.as_str())
}

fn pairs(v: &[(&str, &str)]) -> Vec<(String, String)> {
    v.iter().map(|(a, b)| (a.to_string(), b.to_string())).collect()
}

#[test]
fn parse_param_forms() {
    assert_eq!(parse_param("path = \"/jails/a\";"), Some(("path".into(), "/jails/a".into())));
    assert_eq!(parse_param("ip4.addr += 10.0.0.3;"), Some(("ip4.addr".into(), "10.0.0.3".into())));
    assert_eq!(parse_param("persist;"), Some(("persist".into(), "true".into())));
    assert_eq!(parse_param("x = \";"), Some(("x".into(), "\"".into())));
}

#[test]
fn parse_conf_blocks_with_globals() {
    let jails = parse_jail_conf_from_str(CONF).unwrap();
    let names: Vec<&str> = jails.iter().map(|j| j.name.as_str()).collect();
    assert_eq!(names, vec!["web", "db"]);
    let web = &jails[0].params;
    assert_eq!(last(web, "path"), Some("/usr/jails/web"));
    assert_eq!(last(web, "host.hostname"), Some("web.example.org"));
    assert_eq!(last(web, "ip4.addr"), Some("10.0.0.2"));
    assert_eq!(last(web, "mount.devfs"), Some("true"));
    assert_eq!(last(web, "exec.start"), Some("/bin/sh /etc/rc"));
    let db = &jails[1].params;
    assert_eq!(last(db, "path"), Some("/jails/db"));
    assert_eq!(last(db, "allow.raw_sockets"), Some("1"));
    assert_eq!(last(db, "x"), None);
}

#[test]
fn parse_conf_missing_file() {
    assert!(matches!(parse_jail_conf(None), Err(ApiError::NotFound(_))));
    assert_eq!(parse_jail_conf(Some("")).unwrap().len(), 0);
}

#[test]
fn substitution_uses_path_and_hostname() {
    let mut ps = pairs(&[
        ("path", "/jails/${name}"),
        ("exec.start", "${path}/start ${host.hostname} $name"),
    ]);
    substitute_vars(&mut ps, "a");
    assert_eq!(last(&ps, "path"), Some("/jails/a"));
    assert_eq!(last(&ps, "exec.start"), Some("/jails/${name}/start a a"));
}

#[test]
fn globals_outside_blocks() {
    let g = parse_global_params(CONF);
    assert_eq!(last(&g, "path"), Some("/jails/"));
    assert_eq!(last(&g, "mount.devfs"), Some("true"));
    assert_eq!(last(&g, "host.hostname"), None);
}

#[test]
fn remove_block_keeps_the_rest() {
    let out = remove_jail_block(CONF, "web");
    assert_eq!(
        out,
        "# global\nexec.start = \"/bin/sh /etc/rc\";\nmount.devfs;\npath = \"/jails/${name}\";\n\n/* db {\n   x;\n*/\ndb {\n  allow.raw_sockets = 1; # raw\n}\n"
    );
    assert_eq!(remove_jail_block(CONF, "nope"), CONF);
    assert_eq!(remove_jail_block("a {\n}\n", "a"), "");
}

#[test]
fn new_block_lines() {
    let b = generate_jail_block(
        "web",
        "/jails/web",
        Some("web"),
        Some("em0"),
        Some("10.0.0.2"),
        Some("inherit"),
        Some("/etc/fstab.web"),
    );
    assert_eq!(
        b,
        "web {\n    interface = \"em0\";\n    ip4.addr = 10.0.0.2;\n    ip6 = \"inherit\";\n    mount.fstab = \"/etc/fstab.web\";\n}"
    );
    let b2 = generate_jail_block("db", "/data/db", Some("db.lan"), None, Some("inherit"), Some(""), None);
    assert_eq!(b2, "db {\n    path = \"/data/db\";\n    host.hostname = \"db.lan\";\n    ip4 = \"inherit\";\n}");
}

#[test]
fn block_from_params_skips_defaults() {
    let params = pairs(&[
        ("path", "/usr/jails/web"),
        ("persist", "true"),
        ("mount.devfs", "true"),
        ("jid", "5"),
        ("host.hostname", "web"),
        ("allow.raw_sockets", "0"),
        ("comment", ""),
        ("exec.start", "/bin/sh /etc/rc"),
    ]);
    let globals = pairs(&[("mount.devfs", "true"), ("exec.start", "/bin/sh /etc/rc")]);
    assert_eq!(
        generate_jail_block_from_params("web", &params, &globals),
        "web {\n    host.hostname = \"web\";\n    path = \"/usr/jails/web\";\n    persist;\n}"
    );
}

#[test]
fn append_and_replace() {
    assert_eq!(append_block("", "b {\n}"), "b {\n}");
    assert_eq!(append_block("a;", "b {\n}"), "a;\n\nb {\n}\n");
    assert_eq!(append_block("a;\n", "b {\n}"), "a;\n\nb {\n}\n");
    assert_eq!(replace_block_text("", "b {\n}"), "b {\n}\n");
    assert_eq!(replace_block_text("a;\n", "b {\n}"), "a;\n\nb {\n}\n");
}

#[test]
fn removal_drops_following_blank_line() {
    assert_eq!(remove_jail_block("a {\n    persist;\n}\n\nb {\n}\n", "a"), "b {\n}\n");
    assert_eq!(remove_jail_block("x {\n}\na {\n}\n\n\nb {\n}\n", "a"), "x {\n}\n\nb {\n}\n");
}
