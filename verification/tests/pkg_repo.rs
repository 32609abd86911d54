use fwp::pkg_repo::read_all_repo_files;
use fwp::error::ApiError;
use fwp::pkg::RepoConfig;
use fwp::pkg_repo::{
    merge_repo, parse_repo_text, render_repo_block_diff, repo_text_ok,
    resolve_target_file, validate_filename, validate_url, RepoSource,
};

const FREEBSD_CONF: &str = "# system file\nFreeBSD: {\n  url: \"pkg+http://pkg.FreeBSD.org/${ABI}/quarterly\",\n  mirror_type: \"srv\",\n  signature_type: \"fingerprints\",\n  fingerprints: \"/usr/share/keys/pkg\",\n  enabled: yes\n}\n";

fn repo(name: &str, url: &str, enabled: bool) -> RepoConfig {
    RepoConfig {
        name: name.into(),
        url: url.into(),
        enabled,
        mirror_type: "NONE".into(),
        signature_type: "NONE".into(),
        fingerprints: None,
        pubkey: None,
        priority: 0,
        ip_version: 0,
        is_system_origin: false,
    }
}

fn source(filename: &str, dir: &str, repos: Vec<RepoConfig>) -> RepoSource {
    RepoSource { filename: filename.into(), path: format!("{dir}/{filename}"), repos }
}

#[test]
fn parse_system_file() {
    assert!(repo_text_ok(FREEBSD_CONF));
    let repos = parse_repo_text(FREEBSD_CONF);
    assert_eq!(repos.len(), 1);
    let r = &repos[0];
    assert_eq!(r.name, "FreeBSD");
    assert_eq!(r.url, "pkg+http://pkg.FreeBSD.org/${ABI}/quarterly");
    assert_eq!(r.mirror_type, "SRV");
    assert_eq!(r.signature_type, "FINGERPRINTS");
    assert_eq!(r.fingerprints.as_deref(), Some("/usr/share/keys/pkg"));
    assert!(r.enabled);
    assert!(!r.is_system_origin);
}

#[test]
fn parse_one_line_block() {
    let repos = parse_repo_text("Custom: { enabled: no }\nOther: {\n  priority: 5;\n}\n");
    assert_eq!(repos.len(), 2);
    assert_eq!(repos[0].name, "Custom");
    assert!(!repos[0].enabled);
    assert_eq!(repos[1].priority, 5);
}

#[test]
fn override_diff_is_minimal() {
    let sys = parse_repo_text(FREEBSD_CONF).remove(0);
    let mut user = sys.clone();
    user.enabled = false;
    assert_eq!(render_repo_block_diff(&user, Some(&sys)), "FreeBSD: {\n  enabled: no;\n}\n");
    let fresh = repo("mine", "https://pkg.example.org/repo", true);
    assert_eq!(render_repo_block_diff(&fresh, None), "mine: {\n  url: \"https://pkg.example.org/repo\";\n}\n");
}

#[test]
fn merge_over_system_repo() {
    let sys = parse_repo_text(FREEBSD_CONF).remove(0);
    let over = repo("FreeBSD", "", false);
    let m = merge_repo(&sys, &over);
    assert_eq!(m.url, sys.url);
    assert!(!m.enabled);
    assert_eq!(m.mirror_type, "SRV");
    assert!(!m.is_system_origin);
}

#[test]
fn files_merged_by_name() {
    let sys_dir = "/etc/pkg";
    let user_dir = "/usr/local/etc/pkg/repos";
    let system = vec![
        source("FreeBSD.conf", sys_dir, parse_repo_text(FREEBSD_CONF)),
        source("other.conf", sys_dir, vec![repo("Other", "https://o", true)]),
    ];
    let user = vec![
        source("FreeBSD.conf", user_dir, vec![repo("FreeBSD", "", false)]),
        source("mine.conf", user_dir, vec![repo("Mine", "https://m", true)]),
    ];
    let files = read_all_repo_files(system, user);
    let names: Vec<&str> = files.iter().map(|f| f.filename.as_str()).collect();
    assert_eq!(names, vec!["FreeBSD.conf", "mine.conf", "other.conf"]);

    let f0 = &files[0];
    assert_eq!(f0.path, "/usr/local/etc/pkg/repos/FreeBSD.conf");
    assert!(!f0.is_system);
    assert_eq!(f0.repos.len(), 1);
    assert_eq!(f0.repos[0].url, "pkg+http://pkg.FreeBSD.org/${ABI}/quarterly");
    assert!(!f0.repos[0].enabled);
    assert!(!f0.repos[0].is_system_origin);

    assert!(!files[1].is_system);
    assert_eq!(files[1].repos[0].name, "Mine");

    let f2 = &files[2];
    assert!(f2.is_system);
    assert_eq!(f2.path, "/etc/pkg/other.conf");
    assert!(f2.repos[0].is_system_origin);
}

#[test]
fn user_file_keeps_unnamed_system_repos() {
    let system = vec![source(
        "a.conf",
        "/etc/pkg",
        vec![repo("One", "https://1", true), repo("Two", "https://2", true)],
    )];
    let user = vec![source("a.conf", "/u", vec![repo("Two", "", false), repo("Three", "https://3", true)])];
    let files = read_all_repo_files(system, user);
    assert_eq!(files.len(), 1);
    let names: Vec<&str> = files[0].repos.iter().map(|r| r.name.as_str()).collect();
    assert_eq!(names, vec!["One", "Two", "Three"]);
    assert!(files[0].repos[0].is_system_origin);
    assert_eq!(files[0].repos[1].url, "https://2");
    assert!(!files[0].repos[1].enabled);
}

#[test]
fn target_file_for_an_edit() {
    assert_eq!(
        resolve_target_file("/etc/pkg/FreeBSD.conf", "FreeBSD").unwrap(),
        ("/usr/local/etc/pkg/repos/FreeBSD.conf".to_string(), true)
    );
    assert_eq!(
        resolve_target_file("/usr/local/etc/pkg/repos/mine.conf", "Mine").unwrap(),
        ("/usr/local/etc/pkg/repos/mine.conf".to_string(), false)
    );
    assert!(matches!(
        resolve_target_file("/tmp/x.conf", "x"),
        Err(ApiError::BadRequest(m)) if m == "file must be within pkg config directories"
    ));
    assert!(matches!(
        resolve_target_file("/etc/pkg/bad name.conf", "x"),
        Err(ApiError::BadRequest(m)) if m == "invalid filename"
    ));
}

#[test]
fn file_and_url_checks() {
    assert!(validate_filename("mine.conf").is_ok());
    assert!(validate_filename("mine.txt").is_err());
    assert!(validate_filename("a..conf").is_err());
    assert!(validate_url("pkg+https://pkg.example.org/x").is_ok());
    assert!(validate_url("gopher://x").is_err());
}

#[test]
fn all_repo_files_from_unsorted_listings() {
    let sys = vec![
        source("b.conf", "/etc/pkg", vec![repo("B", "http://b", true)]),
        source("FreeBSD.conf", "/etc/pkg", vec![repo("FreeBSD", "http://sys", true)]),
    ];
    let user = vec![
        source("FreeBSD.conf", "/usr/local/etc/pkg/repos", vec![repo("FreeBSD", "http://sys", false)]),
        source("a.conf", "/usr/local/etc/pkg/repos", vec![repo("A", "http://a", true)]),
        source("a.conf", "/usr/local/etc/pkg/repos", vec![repo("A2", "http://a2", true)]),
    ];
    let files = read_all_repo_files(sys, user);
    let names: Vec<&str> = files.iter().map(|f| f.filename.as_str()).collect();
    assert_eq!(names, vec!["FreeBSD.conf", "a.conf", "b.conf"]);
    assert!(!files[0].is_system);
    assert_eq!(files[0].path, "/usr/local/etc/pkg/repos/FreeBSD.conf");
    assert_eq!(files[1].repos[0].name, "A2");
    assert!(files[2].is_system);
    assert!(read_all_repo_files(Vec::new(), Vec::new()).is_empty());
}
