use fwp::bhyve::{
    check_config_update, check_create_datastore, check_create_vm, check_delete_datastore,
    merge_config_sections, validate_datastore_name, validate_init_spec, validate_switch_create,
    validate_switch_name, validate_vm_config, validate_vm_name, vm_update_note, CreateDatastoreBody,
    CreateSwitchBody, CreateVmBody, UpdateVmConfigBody,
};
use fwp::error::ApiError;

fn bad<T: std::fmt::Debug>(r: Result<T, ApiError>, msg: &str) -> bool {
    matches!(r, Err(ApiError::BadRequest(m)) if m == msg)
}

fn pairs(v: &[(&str, &str)]) -> Vec<(String, String)> {
    v.iter().map(|(a, b)| (a.to_string(), b.to_string())).collect()
}

fn switch(typ: &str) -> CreateSwitchBody {
    CreateSwitchBody {
        name: "public".into(),
        typ: typ.into(),
        iface: None,
        vlan: None,
        bridge: None,
        address: None,
        mtu: None,
        private: false,
    }
}

#[test]
fn vm_names() {
    assert!(validate_vm_name("web-01.lan").is_ok());
    assert!(bad(validate_vm_name(""), "invalid VM name"));
    assert!(bad(validate_vm_name(&"a".repeat(65)), "invalid VM name"));
    assert!(bad(
        validate_vm_name("Web"),
        "VM name may only contain lowercase letters, digits, dots, underscores and dashes"
    ));
    assert!(bad(validate_vm_name("-web"), "VM name must start and end with a letter or digit"));
    assert!(bad(validate_vm_name("web."), "VM name must start and end with a letter or digit"));
}

#[test]
fn datastore_and_switch_names() {
    assert!(validate_datastore_name("tank2").is_ok());
    assert!(bad(validate_datastore_name("a b"), "datastore name may only contain lowercase letters, digits, dots, underscores and dashes"));
    assert!(validate_switch_name("public").is_ok());
    assert!(bad(
        validate_switch_name("_x"),
        "switch name may only contain lowercase letters, digits, dots, underscores and dashes, and must start and end with a letter or digit"
    ));
}

#[test]
fn vm_config_entries() {
    assert!(validate_vm_config(&pairs(&[("cpu", "2"), ("memory", "1G")])).is_ok());
    assert!(bad(validate_vm_config(&vec![]), "VM configuration must not be empty"));
    let many: Vec<(String, String)> = (0..257).map(|i| (format!("k{i}"), "v".to_string())).collect();
    assert!(bad(validate_vm_config(&many), "VM configuration has too many entries"));
    assert!(bad(
        validate_vm_config(&pairs(&[("a", "1"), ("Bad", "2"), ("c", "x\ny")])),
        "invalid VM configuration key: Bad"
    ));
    assert!(bad(
        validate_vm_config(&pairs(&[("a", "1"), ("c", "x\ny")])),
        "invalid value for VM configuration key: c"
    ));
}

#[test]
fn sections_merge_in_key_order() {
    let body = UpdateVmConfigBody {
        config: pairs(&[("memory", "1G"), ("cpu", "1")]),
        advance: pairs(&[("cpu", "2")]),
        graphics: pairs(&[("graphics", "yes")]),
        other_devices: vec![],
        auto_start: None,
    };
    let merged = merge_config_sections(&body);
    assert_eq!(merged, pairs(&[("cpu", "2"), ("graphics", "yes"), ("memory", "1G")]));
    assert!(check_config_update(&merged, None).is_ok());
    let empty = UpdateVmConfigBody {
        config: vec![],
        advance: vec![],
        graphics: vec![],
        other_devices: vec![],
        auto_start: Some(true),
    };
    let m2 = merge_config_sections(&empty);
    assert!(m2.is_empty());
    assert!(check_config_update(&m2, Some(true)).is_ok());
    assert!(bad(check_config_update(&m2, None), "at least one configuration section must not be empty"));
}

#[test]
fn update_notes() {
    assert_eq!(vm_update_note("web", true, None), "updated VM configuration web");
    assert_eq!(
        vm_update_note("web", true, Some(false)),
        "updated VM configuration web; disabled auto-start for vm web"
    );
    assert_eq!(vm_update_note("web", false, Some(true)), "enabled auto-start for vm web");
    assert_eq!(vm_update_note("web", false, None), "");
}

#[test]
fn switch_rules() {
    assert!(validate_switch_create(&switch("standard")).is_ok());
    assert!(bad(validate_switch_create(&switch("bogus")), "invalid switch type"));
    assert!(bad(validate_switch_create(&switch("manual")), "manual switches require a bridge"));
    let mut m = switch("manual");
    m.bridge = Some("bridge0".into());
    assert!(validate_switch_create(&m).is_ok());
    let mut v = switch("vxlan");
    v.iface = Some("em0".into());
    assert!(bad(validate_switch_create(&v), "vxlan switches require an interface and VLAN ID"));
    v.vlan = Some(4095);
    assert!(bad(validate_switch_create(&v), "VLAN ID must be between 0 and 4094"));
    v.vlan = Some(10);
    v.mtu = Some(99);
    assert!(bad(validate_switch_create(&v), "MTU must be between 100 and 9000"));
    v.mtu = Some(9000);
    assert!(validate_switch_create(&v).is_ok());
    let mut a = switch("standard");
    a.address = Some("10.0.0.1".into());
    assert!(bad(validate_switch_create(&a), "address must use CIDR notation"));
    a.address = Some("10.0.0.1/33".into());
    assert!(bad(validate_switch_create(&a), "address must use IPv4 CIDR notation"));
    a.address = Some("10.0.0.256/24".into());
    assert!(bad(validate_switch_create(&a), "address must use IPv4 CIDR notation"));
    a.address = Some("10.0.0.1/24".into());
    assert!(validate_switch_create(&a).is_ok());
}

#[test]
fn init_specs() {
    assert!(validate_init_spec("zfs:zroot/vm").is_ok());
    assert!(validate_init_spec("/home/vm").is_ok());
    assert!(bad(validate_init_spec(""), "invalid vm_dir spec"));
    assert!(bad(validate_init_spec("zfs:"), "ZFS dataset name is empty"));
    assert!(bad(
        validate_init_spec("zfs:zroot vm"),
        "ZFS dataset name may only contain letters, digits, /, _, - and ."
    ));
    assert!(bad(validate_init_spec("home/vm"), "directory path must be absolute (start with /)"));
    assert!(bad(validate_init_spec("/home\0/vm"), "invalid path"));
}

#[test]
fn create_and_delete_requests() {
    let mut vm = CreateVmBody {
        name: "web".into(),
        template: "".into(),
        datastore: None,
        size: None,
        cpu: None,
        memory: None,
    };
    assert!(bad(check_create_vm(&vm), "template is required"));
    vm.template = "default".into();
    assert!(check_create_vm(&vm).is_ok());
    let ds = CreateDatastoreBody { name: "tank".into(), spec: "".into() };
    assert!(bad(check_create_datastore(&ds), "spec is required"));
    assert!(bad(check_delete_datastore("default"), "cannot remove the default datastore"));
    assert!(check_delete_datastore("tank").is_ok());
}
