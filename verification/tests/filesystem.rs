use fwp::error::ApiError;
use fwp::filesystem::{disk_details, parse_disk_list, parse_geom_disks, parse_geom_part, validate_dev_name};

const DISKS: &str = "Geom name: ada1\nProviders:\n1. Name: ada1\n   Mediasize: 2000398934016 (1.8T)\n   Sectorsize: 512\n   Mode: r1w1e1\n   descr: WDC WD20EFRX\n   lunid: 50014ee2\n   ident: WD-WCC4M\n   rotationrate: 5400\n   fwsectors: 63\n   fwheads: 16\n\nGeom name: cd0\nProviders:\n1. Name: cd0\n   Mediasize: 0 (0B)\n   descr: DVD\n\nGeom name: ada0\nProviders:\n1. Name: ada0\n   Mediasize: 256060514304 (238G)\n   Sectorsize: 512\n   descr: Samsung SSD\n   rotationrate: 0\n";

const PARTS: &str = "Geom name: ada0\nmodified: false\nstate: OK\nfwheads: 16\nfirst: 40\nlast: 500118152\nentries: 128\nscheme: GPT\nProviders:\n1. Name: ada0p1\n   Mediasize: 524288 (512K)\n   Sectorsize: 512\n   Mode: r0w0e0\n   rawuuid: 11111111-2222\n   label: gptboot0\n   length: 524288\n   offset: 20480\n   type: freebsd-boot\n   index: 1\n   end: 1063\n   start: 40\n2. Name: ada0p2\n   Mediasize: 256059965440 (238G)\n   type: freebsd-zfs\n   index: 2\n   start: 1064\n   end: 500118151\nConsumers:\n1. Name: ada0\n   Mediasize: 256060514304 (238G)\n";

#[test]
fn disk_list_rows() {
    let disks = parse_disk_list(DISKS);
    let names: Vec<&str> = disks.iter().map(|d| d.name.as_str()).collect();
    assert_eq!(names, vec!["ada1", "ada0"]);
    assert_eq!(disks[0].descr, "WDC WD20EFRX");
    assert_eq!(disks[0].size_bytes, 2000398934016);
    assert_eq!(disks[0].rotation_rate, "5400");
    assert_eq!(disks[1].rotation_rate, "0");
}

#[test]
fn geom_disk_details() {
    let disks = parse_geom_disks(DISKS);
    let names: Vec<&str> = disks.iter().map(|d| d.name.as_str()).collect();
    assert!(names.contains(&"ada0") && names.contains(&"ada1"));
    assert!(!names.contains(&"cd0"));
    let ada1 = disks.iter().find(|d| d.name == "ada1").unwrap();
    assert_eq!(ada1.sectorsize, 512);
    assert_eq!(ada1.mode, "r1w1e1");
    assert_eq!(ada1.lunid, "50014ee2");
    assert_eq!(ada1.ident, "WD-WCC4M");
    assert_eq!(ada1.fwsectors, 63);
    assert_eq!(ada1.fwheads, 16);
}

#[test]
fn partition_table_read_onto_disk() {
    let mut disks = parse_geom_disks(DISKS);
    parse_geom_part(PARTS, &mut disks);
    let ada0 = disks.iter().find(|d| d.name == "ada0").unwrap();
    assert_eq!(ada0.scheme.as_deref(), Some("GPT"));
    assert_eq!(ada0.state.as_deref(), Some("OK"));
    assert_eq!(ada0.first, Some(40));
    assert_eq!(ada0.last, Some(500118152));
    assert_eq!(ada0.entries, Some(128));
    assert_eq!(ada0.partitions.len(), 2);
    let p1 = &ada0.partitions[0];
    assert_eq!(p1.name, "ada0p1");
    assert_eq!(p1.mediasize_bytes, 524288);
    assert_eq!(p1.ptype, "freebsd-boot");
    assert_eq!(p1.label, "gptboot0");
    assert_eq!(p1.index, 1);
    assert_eq!((p1.start, p1.end, p1.offset_bytes), (40, 1063, 20480));
    assert_eq!(p1.rawuuid, "11111111-2222");
    assert_eq!(ada0.partitions[1].ptype, "freebsd-zfs");
    let ada1 = disks.iter().find(|d| d.name == "ada1").unwrap();
    assert!(ada1.partitions.is_empty());
    assert_eq!(ada1.scheme, None);
}

#[test]
fn details_sorted_by_name() {
    let d = disk_details(Some(DISKS), Some(PARTS));
    let names: Vec<&str> = d.iter().map(|x| x.name.as_str()).collect();
    assert_eq!(names, vec!["ada0", "ada1"]);
    assert_eq!(d[0].partitions.len(), 2);
    assert!(disk_details(None, None).is_empty());
}

#[test]
fn device_names() {
    assert!(validate_dev_name("ada0").is_ok());
    assert!(validate_dev_name("nvd0_x-1").is_ok());
    assert!(matches!(validate_dev_name("../ada0"), Err(ApiError::BadRequest(m)) if m == "invalid device name"));
    assert!(validate_dev_name("").is_err());
}

#[test]
fn two_digit_provider_numbers() {
    let mut raw = String::from("Geom name: ada0\nscheme: GPT\nProviders:\n");
    for i in 1..=10 {
        raw.push_str(&format!("{i}. Name: ada0p{i}\n   Mediasize: {}\n   index: {i}\n", i * 1024));
    }
    raw.push_str("Consumers:\n1. Name: ada0\n");
    let mut disks = parse_geom_disks(DISKS);
    parse_geom_part(&raw, &mut disks);
    let ada0 = disks.iter().find(|d| d.name == "ada0").unwrap();
    assert_eq!(ada0.partitions.len(), 10);
    assert_eq!(ada0.partitions[8].name, "ada0p9");
    assert_eq!(ada0.partitions[8].index, 9);
    assert_eq!(ada0.partitions[8].mediasize_bytes, 9 * 1024);
    assert_eq!(ada0.partitions[9].name, "ada0p10");
    assert_eq!(ada0.partitions[9].index, 10);
}
