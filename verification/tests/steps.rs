use fwp::text::file_name_of;
use fwp::accounts::{
    plan_create_user, plan_update_group, plan_update_user, CreateUserReq, UpdateGroupReq, UpdateUserReq,
    UserModAction, UserModEvent, UserModPlan, UserModStage,
};
use fwp::error::ApiError;
use fwp::ifaddrs::{iface_extras, BridgeRecord};
use fwp::jails::{DeleteAction, DeleteEvent, DeleteStage, JailDeletion};
use fwp::rsync::{browse_entries, browse_failure, browse_target, BrowseQuery};

const PASSWD: &str = "root:*:0:0:Charlie &:/root:/bin/sh\ndaemon:*:1:1:Owner:/root:/usr/sbin/nologin\nalice:*:1001:1001:Alice:/home/alice:/bin/sh\n";
const GROUP: &str = "wheel:*:0:root\nstaff:*:1001:alice\n";

fn plan(run: bool, lock: Option<bool>, is_root: bool) -> UserModPlan {
    UserModPlan {
        args: vec!["usermod".into(), "-n".into(), "alice".into(), "-s".into(), "/bin/sh".into()],
        run,
        effective: "alice".into(),
        lock,
        is_root,
        password: Some("pw".into()),
        detail: "Modified system user 'alice'".into(),
    }
}

#[test]
fn usermod_runs_before_lock() {
    let p = plan(true, Some(true), false);
    let (st, a) = p.start_apply();
    assert_eq!(st, UserModStage::Usermod);
    match a {
        UserModAction::RunPw { args, stdin } => {
            assert_eq!(args, vec!["usermod", "-n", "alice", "-s", "/bin/sh", "-h", "0"]);
            assert_eq!(stdin.as_deref(), Some("pw\n"));
        }
        other => panic!("unexpected {other:?}"),
    }
    let (st, a) = p.step_apply(st, UserModEvent::Usermod(Ok(())));
    assert!(matches!(a, UserModAction::ReadLocked));
    let (st, a) = p.step_apply(st, UserModEvent::Locked(false));
    match a {
        UserModAction::RunPw { args, stdin } => {
            assert_eq!(args, vec!["lock", "alice"]);
            assert!(stdin.is_none());
        }
        other => panic!("unexpected {other:?}"),
    }
    let (st, a) = p.step_apply(st, UserModEvent::LockRan(Ok(())));
    assert_eq!(st, UserModStage::Done);
    assert!(matches!(a, UserModAction::Finish(Ok(()))));
    // already locked: nothing to run
    let (st, _) = p.step_apply(UserModStage::Usermod, UserModEvent::Usermod(Ok(())));
    assert!(matches!(p.step_apply(st, UserModEvent::Locked(true)).1, UserModAction::Finish(Ok(()))));
    // a failed usermod ends it before any lock
    let (st, a) = p.step_apply(UserModStage::Usermod, UserModEvent::Usermod(Err(ApiError::Command("boom".into()))));
    assert_eq!(st, UserModStage::Done);
    assert!(matches!(a, UserModAction::Finish(Err(ApiError::Command(_)))));
}

#[test]
fn root_lock_refused_after_usermod() {
    let p = plan(true, Some(true), true);
    let (st, _) = p.start_apply();
    let (_, a) = p.step_apply(st, UserModEvent::Usermod(Ok(())));
    assert!(matches!(a, UserModAction::Finish(Err(ApiError::BadRequest(m))) if m == "Refusing to lock the root account"));
    let p = plan(false, None, false);
    assert!(matches!(p.start_apply().1, UserModAction::Finish(Ok(()))));
}

#[test]
fn every_invalid_field_is_a_bad_request() {
    let mut req = UpdateUserReq {
        new_name: Some("bad name!".into()),
        uid: None,
        gid: None,
        gecos: None,
        home: None,
        shell: None,
        groups: None,
        password: None,
        locked: None,
    };
    assert!(matches!(plan_update_user("daemon", &req, PASSWD, &Vec::new()), Err(ApiError::BadRequest(_))));
    req.new_name = None;
    req.uid = Some(0);
    assert!(matches!(plan_update_user("daemon", &req, PASSWD, &Vec::new()), Err(ApiError::BadRequest(_))));
    let mut c = CreateUserReq {
        name: "carol".into(),
        uid: Some(0),
        gid: None,
        gecos: None,
        home: None,
        shell: None,
        groups: None,
        password: None,
        create_home: false,
    };
    assert!(matches!(plan_create_user(&c, &Vec::new(), PASSWD), Err(ApiError::BadRequest(_))));
    c.uid = None;
    c.gecos = Some("a:b".into());
    assert!(matches!(plan_create_user(&c, &Vec::new(), PASSWD), Err(ApiError::BadRequest(_))));
    c.gecos = None;
    c.home = Some("relative".into());
    assert!(matches!(plan_create_user(&c, &Vec::new(), PASSWD), Err(ApiError::BadRequest(_))));
    let g = UpdateGroupReq { new_name: Some("no good".into()), gid: None, members: None };
    assert!(matches!(plan_update_group("staff", &g, GROUP), Err(ApiError::BadRequest(_))));
}

#[test]
fn jail_files_removed_in_order() {
    let (d, a) = JailDeletion::start("web", Some("/jails/web".into()), Some("/etc/fstab.web".into()), true);
    assert!(matches!(&a, DeleteAction::ListDataset(p) if p == "/jails/web"));
    let (d, a) = d.step(DeleteEvent::Listed(Some("zroot/jails/web\t/jails/web\n".into())));
    assert!(matches!(&a, DeleteAction::DestroyDataset(ds) if ds == "zroot/jails/web"));
    let (d, a) = d.step(DeleteEvent::Ran(true));
    assert!(matches!(&a, DeleteAction::CheckExists(p) if p == "/etc/fstab.web"));
    let (d, a) = d.step(DeleteEvent::Exists(true));
    assert!(matches!(&a, DeleteAction::RemoveFile(p) if p == "/etc/fstab.web"));
    let (d, a) = d.step(DeleteEvent::Ran(false));
    assert_eq!(d.stage, DeleteStage::Done);
    match a {
        DeleteAction::Finish(m) => assert_eq!(
            m,
            "removed jail web from jail.conf, destroyed dataset zroot/jails/web, removed fstab /etc/fstab.web"
        ),
        other => panic!("unexpected {other:?}"),
    }
}

#[test]
fn jail_directory_inside_parent_dataset() {
    let (d, _) = JailDeletion::start("db", Some("/jails/db".into()), None, true);
    let (d, a) = d.step(DeleteEvent::Listed(Some("zroot/jails\t/jails\n".into())));
    assert!(matches!(&a, DeleteAction::CheckExists(p) if p == "/jails/db"));
    let (d, a) = d.step(DeleteEvent::Exists(true));
    assert!(matches!(&a, DeleteAction::RemoveDir(_)));
    let (_, a) = d.step(DeleteEvent::Ran(false));
    assert!(matches!(a, DeleteAction::Finish(m) if m == "removed jail db from jail.conf"));
    let (_, a) = JailDeletion::start("x", Some("/j".into()), None, false);
    assert!(matches!(a, DeleteAction::Finish(m) if m == "removed jail x from jail.conf"));
}

#[test]
fn browse_listing_dirs_first() {
    let listing = "b.txt\nZeta/\n./\n../\nalpha/\nA.txt  \n\n";
    let e = browse_entries("me@host", "/srv", listing);
    let names: Vec<(&str, bool)> = e.iter().map(|x| (x.name.as_str(), x.is_dir)).collect();
    assert_eq!(names, vec![("alpha", true), ("Zeta", true), ("A.txt", false), ("b.txt", false)]);
    assert_eq!(e[0].path, "me@host:/srv/alpha");
    let e = browse_entries("h", "/srv/", "x\n");
    assert_eq!(e[0].path, "h:/srv/x");
    assert_eq!(browse_failure("  Permission denied \n", Some(255)), "Permission denied");
    assert_eq!(browse_failure("", Some(2)), "remote listing failed (exit 2)");
    assert_eq!(browse_failure("", None), "remote listing failed (exit -1)");
    let t = browse_target(&BrowseQuery { spec: "me@host:/srv".into(), port: None }).unwrap();
    assert_eq!((t.host.as_str(), t.path.as_str(), t.port), ("me@host", "/srv", 22));
    assert_eq!(t.remote_cmd, "ls -1Ap -- '/srv'");
    let r = browse_target(&BrowseQuery { spec: "me@host:/srv".into(), port: Some(70000) });
    assert!(matches!(r, Err(ApiError::BadRequest(m)) if m == "port must be 1-65535"));
}

#[test]
fn interface_extras_cleaned() {
    let mut descr = b"uplink".to_vec();
    descr.push(0);
    descr.extend_from_slice(b"junk");
    let mut status = b"  media: Ethernet  \n\n\tstatus: active\n".to_vec();
    status.push(0);
    let members = vec![
        BridgeRecord { name: "em0".into(), port: 1, priority: 128, path_cost: 2000, vlan_proto: 0x8100 },
        BridgeRecord { name: String::new(), port: 2, priority: 0, path_cost: 0, vlan_proto: 0 },
        BridgeRecord { name: "tap0".into(), port: 7, priority: 128, path_cost: 55, vlan_proto: 0 },
    ];
    let x = iface_extras(vec!["all".into(), "".into(), "lan".into()], Some(descr), Some(status), members);
    assert_eq!(x.groups, vec!["lan"]);
    assert_eq!(x.description.as_deref(), Some("uplink"));
    assert_eq!(x.status.as_deref(), Some("media: Ethernet\nstatus: active"));
    assert_eq!(x.members.len(), 2);
    assert_eq!(x.members[0].info, "port 1 priority 128 path cost 2000 vlan protocol 802.1Q");
    assert_eq!(x.members[1].info, "port 7 priority 128 path cost 55");
    let y = iface_extras(Vec::new(), Some(vec![0, 1]), Some(b"no nul".to_vec()), Vec::new());
    assert!(y.description.is_none() && y.status.is_none());
}

#[test]
fn file_name_agrees_with_std() {
    for p in ["/etc/pkg/FreeBSD.conf", "a/b/", "a/./", "a/.", "a/..", "..", ".", "/", "", "//x//", "./a", "a/b/../c"] {
        let std_name = std::path::Path::new(p).file_name().map(|n| n.to_string_lossy().into_owned());
        assert_eq!(file_name_of(p), std_name, "{p:?}");
    }
}
