use fwp::smart::{smart_missing, smart_result, smart_unreadable, NvmeLog, ReportAttr, SmartRaw, SmartReport};

fn attr(id: u32, value: Option<u64>, thresh: Option<u64>, raw: Option<u64>) -> ReportAttr {
    ReportAttr {
        id,
        name: format!("attr{id}"),
        value,
        worst: value,
        thresh,
        raw: Some(SmartRaw { value: raw, string: raw.map(|r| r.to_string()) }),
    }
}

fn empty_report() -> SmartReport {
    SmartReport {
        model_name: None,
        serial_number: None,
        device_type: None,
        passed: None,
        temperature: None,
        power_on_hours: None,
        power_cycle_count: None,
        attributes: None,
        nvme: None,
    }
}

#[test]
fn ata_attributes_and_fallbacks() {
    let mut rep = empty_report();
    rep.model_name = Some("WDC".to_string());
    rep.passed = Some(true);
    rep.temperature = Some(34);
    rep.attributes = Some(vec![
        attr(5, Some(100), Some(10), Some(0)),
        attr(9, Some(90), Some(0), Some(12345)),
        attr(12, Some(100), Some(0), Some(77)),
        attr(196, Some(5), Some(10), Some(3)),
    ]);
    let r = smart_result("ada0".to_string(), rep);
    assert_eq!(r.name, "ada0");
    assert_eq!(r.model.as_deref(), Some("WDC"));
    assert_eq!(r.healthy, Some(true));
    assert_eq!(r.power_on_hours, Some(12345));
    assert_eq!(r.power_cycle_count, Some(77));
    assert_eq!(r.temperature, Some(34));
    let failing: Vec<bool> = r.attributes.iter().map(|a| a.failing).collect();
    assert_eq!(failing, vec![false, false, false, true]);
    assert_eq!(r.attributes[1].raw_string.as_deref(), Some("12345"));
    assert_eq!(r.note, None);
    assert!(!r.smartctl_missing);
}

#[test]
fn top_level_hours_win_and_nvme_fills_the_rest() {
    let mut rep = empty_report();
    rep.power_on_hours = Some(10);
    rep.attributes = Some(vec![attr(9, Some(1), Some(0), Some(999))]);
    rep.nvme = Some(NvmeLog {
        media_errors: Some(0),
        unsafe_shutdowns: Some(4),
        controller_busy_time: Some(6),
        power_cycles: Some(21),
        power_on_hours: Some(500),
        temperature: Some(41),
    });
    let r = smart_result("nvd0".to_string(), rep);
    assert_eq!(r.power_on_hours, Some(10));
    assert_eq!(r.power_cycle_count, Some(21));
    assert_eq!(r.temperature, Some(41));
    let n = r.nvme.unwrap();
    assert_eq!((n.media_errors, n.unsafe_shutdowns, n.controller_busy_time), (Some(0), Some(4), Some(6)));
}

#[test]
fn note_only_when_nothing_reported() {
    let r = smart_result("da0".to_string(), empty_report());
    assert_eq!(r.note.as_deref(), Some("no SMART data reported"));
    let mut rep = empty_report();
    rep.model_name = Some("Only a model".to_string());
    assert_eq!(smart_result("da0".to_string(), rep).note.as_deref(), Some("no SMART data reported"));
    let mut rep = empty_report();
    rep.passed = Some(false);
    assert_eq!(smart_result("da0".to_string(), rep).note, None);
}

#[test]
fn unreadable_output_notes() {
    let r = smart_unreadable("da0".to_string(), 2, "", "  Device open failed \n");
    assert_eq!(r.note.as_deref(), Some("Device open failed"));
    let r = smart_unreadable("da0".to_string(), 0, "  \n", "");
    assert_eq!(r.note.as_deref(), Some("smartctl produced no output"));
    let r = smart_unreadable("da0".to_string(), 4, "{oops", "");
    assert_eq!(r.note.as_deref(), Some("could not parse smartctl output"));
    assert!(r.attributes.is_empty() && r.healthy.is_none());
    let m = smart_missing("da0".to_string());
    assert!(m.smartctl_missing && m.note.is_none());
}
