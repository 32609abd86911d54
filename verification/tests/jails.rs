use fwp::error::ApiError;
use fwp::jail_conf::ParsedJail;
use fwp::jails::{
    dedicated_dataset, image_fstab_path, jail_files, jail_list_change, parse_snapshot_list,
    validate_jail_name, validate_snapshot_name, validate_source_path, validate_target_path,
    validate_url, validate_zfs_name, validate_zfs_snapshots,
};

fn bad<T: std::fmt::Debug>(r: Result<T, ApiError>, msg: &str) -> bool {
    matches!(r, Err(ApiError::BadRequest(m)) if m == msg)
}

fn strings(v: &[&str]) -> Vec<String> {
    v.iter().map(|s| s.to_string()).collect()
}

fn jail(name: &str, params: &[(&str, &str)]) -> ParsedJail {
    ParsedJail {
        name: name.to_string(),
        params: params.iter().map(|(a, b)| (a.to_string(), b.to_string())).collect(),
    }
}

#[test]
fn jail_name_rules() {
    assert!(validate_jail_name("web-1.lan_x").is_ok());
    assert!(bad(validate_jail_name(""), "invalid name"));
    assert!(bad(validate_jail_name("a b"), "invalid name"));
    assert!(bad(validate_jail_name(&"a".repeat(257)), "invalid name"));
}

#[test]
fn source_and_target_paths() {
    assert!(validate_source_path("/usr/freebsd-dist").is_ok());
    assert!(validate_source_path("zroot/bases/14.1@clean").is_ok());
    assert!(bad(validate_source_path(""), "invalid path"));
    assert!(bad(validate_source_path("/tmp/$x"), "path contains invalid characters"));
    assert!(bad(validate_source_path(".hidden"), "invalid ZFS dataset name"));
    assert!(validate_target_path("/jails/web").is_ok());
    assert!(bad(validate_target_path("jails/web"), "target path must be absolute"));
    assert!(bad(validate_target_path("/jails\n"), "path contains invalid characters"));
}

#[test]
fn snapshot_url_and_dataset_names() {
    assert!(validate_snapshot_name("clean 2024-01-01:00").is_ok());
    assert!(bad(validate_snapshot_name("a@b"), "invalid snapshot name"));
    assert!(validate_url("https://download.freebsd.org/base.txz").is_ok());
    assert!(bad(validate_url("ftp://x"), "download URL must start with https:// or http://"));
    assert!(bad(validate_url("http://a b"), "invalid download URL"));
    assert!(validate_zfs_name("zroot/jails/web").is_ok());
    assert!(bad(validate_zfs_name("zroot/../x"), "invalid dataset name"));
    assert!(bad(validate_zfs_name(".x"), "invalid dataset name"));
}

#[test]
fn image_fstab_location() {
    assert_eq!(image_fstab_path("/var/db/fwp", "/jails/web"), "/var/db/fwp/jail-fstabs/jails_web.fstab");
    assert_eq!(image_fstab_path("/var/db/fwp/", "/a/b/c"), "/var/db/fwp/jail-fstabs/a_b_c.fstab");
}

#[test]
fn files_of_a_jail() {
    let js = vec![
        jail("web", &[("path", "/jails/web"), ("mount.fstab", "/etc/fstab.web")]),
        jail("db", &[("path", "")]),
    ];
    assert_eq!(
        jail_files(&js, "web"),
        (Some("/jails/web".to_string()), Some("/etc/fstab.web".to_string()))
    );
    assert_eq!(jail_files(&js, "db"), (None, None));
    assert_eq!(jail_files(&js, "none"), (None, None));
}

#[test]
fn dedicated_dataset_needs_same_mountpoint() {
    assert_eq!(dedicated_dataset("zroot/jails/web\t/jails/web\n", "/jails/web"), Some("zroot/jails/web".to_string()));
    assert_eq!(dedicated_dataset("zroot/jails\t/jails\n", "/jails/web"), None);
    assert_eq!(dedicated_dataset("", "/jails/web"), None);
}

#[test]
fn auto_start_list() {
    let list = strings(&["web", "db", "web"]);
    assert_eq!(jail_list_change(&list, "web", true), None);
    assert_eq!(jail_list_change(&list, "web", false), Some(strings(&["db"])));
    assert_eq!(jail_list_change(&list, "mail", true), Some(strings(&["web", "db", "web", "mail"])));
    assert_eq!(jail_list_change(&list, "mail", false), None);
}

#[test]
fn snapshots_listed_and_checked() {
    let snaps = parse_snapshot_list("zroot/b@one\n\n  zroot/b@two  \n");
    assert_eq!(snaps, strings(&["zroot/b@one", "zroot/b@two"]));
    let avail = strings(&["one", "two"]);
    assert!(validate_zfs_snapshots("zroot/b", &strings(&["two", "one"]), &avail).is_ok());
    assert!(bad(
        validate_zfs_snapshots("zroot/b", &strings(&["one", "three", "four"]), &avail),
        "snapshot \"three\" not found on dataset \"zroot/b\""
    ));
}
