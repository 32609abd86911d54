use fwp::rsync::{
    cron_block_wanted, cron_cmd_line, cron_comment_line, parse_fwp_tag, remove_cron_block,
    upsert_cron_block, RsyncTask,
};

fn task(id: i64) -> RsyncTask {
    RsyncTask {
        id,
        description: "nightly".into(),
        source: "/data/".into(),
        dest: "backup@host:/srv/data".into(),
        archive: true,
        compress: true,
        delete: false,
        verbose: false,
        port: None,
        extra_args: String::new(),
        run_user: String::new(),
        cron_expr: "0 3 * * *".into(),
        cron_enabled: true,
        last_run_at: None,
        last_status: None,
        created_at: 0,
        updated_at: 0,
    }
}

#[test]
fn tags_read_from_comments() {
    assert_eq!(parse_fwp_tag("# [fwp-managed, rsync=12] nightly"), Some(12));
    assert_eq!(parse_fwp_tag("  #[fwp-managed, rsync= 7 ]"), Some(7));
    assert_eq!(parse_fwp_tag("# plain comment"), None);
    assert_eq!(parse_fwp_tag("0 3 * * * root cmd"), None);
    assert_eq!(parse_fwp_tag(&cron_comment_line(&task(42))), Some(42));
}

#[test]
fn block_replaced_in_place() {
    let t = task(3);
    let c = cron_comment_line(&t);
    let m = cron_cmd_line(&t);
    assert!(m.starts_with("0 3 * * * root "));
    let content = "SHELL=/bin/sh\n# [fwp-managed, rsync=3] old\n0 * * * * root old\n# tail\n";
    assert_eq!(upsert_cron_block(content, &t), format!("SHELL=/bin/sh\n{c}\n{m}\n# tail\n"));
}

#[test]
fn block_appended_after_blank() {
    let t = task(4);
    let c = cron_comment_line(&t);
    let m = cron_cmd_line(&t);
    assert_eq!(upsert_cron_block("SHELL=/bin/sh\n", &t), format!("SHELL=/bin/sh\n\n{c}\n{m}\n"));
    assert_eq!(upsert_cron_block("", &t), format!("{c}\n{m}\n"));
}

#[test]
fn block_removed_with_its_blank_line() {
    let content = "SHELL=/bin/sh\n\n# [fwp-managed, rsync=3] x\n0 3 * * * root cmd\n# other\n";
    assert_eq!(remove_cron_block(content, 3), Some("SHELL=/bin/sh\n# other\n".to_string()));
    assert_eq!(remove_cron_block(content, 9), None);
    let back_to_back = "# [fwp-managed, rsync=3] a\n# [fwp-managed, rsync=4] b\ncmd4\n";
    assert_eq!(
        remove_cron_block(back_to_back, 3),
        Some("# [fwp-managed, rsync=4] b\ncmd4\n".to_string())
    );
}

#[test]
fn schedule_wanted_only_when_enabled_and_set() {
    let mut t = task(1);
    assert!(cron_block_wanted(&t));
    t.cron_enabled = false;
    assert!(!cron_block_wanted(&t));
    t.cron_enabled = true;
    t.cron_expr = String::new();
    assert!(!cron_block_wanted(&t));
}
