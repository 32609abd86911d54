use fwp::accounts::{
    plan_create_user, plan_update_group, plan_update_user, useradd_command, CreateUserReq,
    UpdateGroupReq, UpdateUserReq, UserAddPlan,
};
use fwp::error::ApiError;

const PASSWD: &str = "root:*:0:0:Charlie &:/root:/bin/sh\ndaemon:*:1:1:Owner:/root:/usr/sbin/nologin\nalice:*:1001:1001:Alice:/home/alice:/bin/sh\nbob:*:1002:1002:Bob:/home/bob:/bin/sh\n";
const GROUP: &str = "wheel:*:0:root\noperator:*:5:root\nstaff:*:1001:alice\nteam:*:1002:\n";

fn new_req(name: &str) -> CreateUserReq {
    CreateUserReq {
        name: name.to_string(),
        uid: None,
        gid: None,
        gecos: None,
        home: None,
        shell: None,
        groups: None,
        password: None,
        create_home: false,
    }
}

fn upd() -> UpdateUserReq {
    UpdateUserReq {
        new_name: None,
        uid: None,
        gid: None,
        gecos: None,
        home: None,
        shell: None,
        groups: None,
        password: None,
        locked: None,
    }
}

#[test]
fn useradd_password_goes_to_stdin() {
    let plan = UserAddPlan {
        name: "carol".to_string(),
        args: vec!["useradd".to_string(), "-n".to_string(), "carol".to_string()],
        password: Some("s3cret".to_string()),
    };
    let (args, stdin) = useradd_command(&plan);
    assert_eq!(args, vec!["useradd", "-n", "carol", "-h", "0"]);
    assert_eq!(stdin.as_deref(), Some("s3cret\n"));
    assert!(!args.iter().any(|a| a.contains("s3cret")));
    let plan = UserAddPlan { password: None, ..plan };
    let (args, stdin) = useradd_command(&plan);
    assert_eq!(args, vec!["useradd", "-n", "carol"]);
    assert_eq!(stdin, None);
}

#[test]
fn create_existing_user_conflicts() {
    let r = plan_create_user(&new_req("alice"), &Vec::new(), PASSWD);
    assert!(matches!(r, Err(ApiError::Conflict(m)) if m == "User 'alice' already exists"));
    let r = plan_create_user(&new_req("root"), &Vec::new(), PASSWD);
    assert!(matches!(r, Err(ApiError::BadRequest(m)) if m == "Cannot create user 'root'"));
    let mut req = new_req(" carol ");
    req.password = Some("pw".to_string());
    let p = plan_create_user(&req, &Vec::new(), PASSWD).unwrap();
    assert_eq!(p.name, "carol");
    assert_eq!(p.args, vec!["useradd", "-n", "carol"]);
    assert_eq!(p.password.as_deref(), Some("pw"));
}

#[test]
fn system_user_keeps_name_and_ids() {
    let mut req = upd();
    req.new_name = Some("demon".to_string());
    assert!(matches!(plan_update_user("daemon", &req, PASSWD, &Vec::new()), Err(ApiError::BadRequest(_))));
    let mut req = upd();
    req.uid = Some(7);
    assert!(matches!(plan_update_user("daemon", &req, PASSWD, &Vec::new()), Err(ApiError::BadRequest(_))));
    let mut req = upd();
    req.new_name = Some("bob".to_string());
    assert!(matches!(
        plan_update_user("alice", &req, PASSWD, &Vec::new()),
        Err(ApiError::Conflict(m)) if m == "Target name already in use"
    ));
}

#[test]
fn group_updates_refused() {
    let req = UpdateGroupReq { new_name: None, gid: Some(0), members: None };
    assert!(matches!(
        plan_update_group("team", &req, GROUP),
        Err(ApiError::BadRequest(m)) if m == "GID 0 (wheel) is reserved"
    ));
    let req = UpdateGroupReq { new_name: Some("ops".to_string()), gid: None, members: None };
    assert!(matches!(plan_update_group("operator", &req, GROUP), Err(ApiError::BadRequest(_))));
    let req = UpdateGroupReq { new_name: Some("team".to_string()), gid: None, members: None };
    assert!(matches!(
        plan_update_group("staff", &req, GROUP),
        Err(ApiError::Conflict(m)) if m == "Target group name already in use"
    ));
    let req = UpdateGroupReq { new_name: None, gid: None, members: Some(Vec::new()) };
    assert!(plan_update_group("team", &req, GROUP).is_ok());
}
