//! SMART health of a disk, from what `smartctl -j -a` reported. Its exit
//! code is a bit mask and never an error by itself: the report is always
//! read, and a note is given only when the data is absent.
use vstd::prelude::*;
use crate::filesystem::SmartAttr;
use crate::text::{owned, trim, trim_str};

verus! {

/// An attribute's raw counter as reported.
#[derive(Debug, Clone)]
pub struct SmartRaw {
    pub value: Option<u64>,
    pub string: Option<String>,
}

/// One row of the ATA attribute table as reported.
#[derive(Debug, Clone)]
pub struct ReportAttr {
    pub id: u32,
    pub name: String,
    pub value: Option<u64>,
    pub worst: Option<u64>,
    pub thresh: Option<u64>,
    pub raw: Option<SmartRaw>,
}

/// The whole-number fields of the NVMe health log (its percentages are
/// carried by the caller).
#[derive(Debug, Clone)]
pub struct NvmeLog {
    pub media_errors: Option<u64>,
    pub unsafe_shutdowns: Option<u64>,
    pub controller_busy_time: Option<u64>,
    pub power_cycles: Option<u64>,
    pub power_on_hours: Option<u64>,
    pub temperature: Option<i64>,
}

/// What `smartctl` reported, field by field (each may be absent).
#[derive(Debug, Clone)]
pub struct SmartReport {
    pub model_name: Option<String>,
    pub serial_number: Option<String>,
    pub device_type: Option<String>,
    pub passed: Option<bool>,
    pub temperature: Option<i64>,
    pub power_on_hours: Option<u64>,
    pub power_cycle_count: Option<u64>,
    pub attributes: Option<Vec<ReportAttr>>,
    pub nvme: Option<NvmeLog>,
}

/// The NVMe counters shown.
#[derive(Debug, Clone)]
pub struct NvmeCounters {
    pub media_errors: Option<u64>,
    pub unsafe_shutdowns: Option<u64>,
    pub controller_busy_time: Option<u64>,
}

/// The SMART health of one disk.
#[derive(Debug, Clone)]
pub struct DiskSmart {
    pub name: String,
    pub device_type: Option<String>,
    pub model: Option<String>,
    pub serial: Option<String>,
    pub healthy: Option<bool>,
    pub power_on_hours: Option<u64>,
    pub power_cycle_count: Option<u64>,
    pub temperature: Option<i32>,
    pub attributes: Vec<SmartAttr>,
    pub nvme: Option<NvmeCounters>,
    pub note: Option<String>,
    pub smartctl_missing: bool,
}

/// An attribute fails when its normalized value is at or below a nonzero
/// threshold.
pub open spec fn attr_failing(a: ReportAttr) -> bool {
    match (a.thresh, a.value) {
        (Some(t), Some(v)) => t > 0 && v <= t,
        _ => false,
    }
}

pub open spec fn raw_value(a: ReportAttr) -> Option<u64> {
    match a.raw {
        Some(r) => r.value,
        None => None,
    }
}

pub open spec fn opt_view(o: Option<String>) -> Option<Seq<char>> {
    match o {
        Some(s) => Some(s@),
        None => None,
    }
}

pub open spec fn raw_string(a: ReportAttr) -> Option<Seq<char>> {
    match a.raw {
        Some(r) => opt_view(r.string),
        None => None,
    }
}

/// The shown attribute is the reported row with its raw counter and the
/// failing mark.
pub open spec fn shows(s: SmartAttr, a: ReportAttr) -> bool {
    &&& s.id == a.id
    &&& s.name@ == a.name@
    &&& s.value == a.value
    &&& s.worst == a.worst
    &&& s.thresh == a.thresh
    &&& s.raw == raw_value(a)
    &&& opt_view(s.raw_string) == raw_string(a)
    &&& s.failing == attr_failing(a)
}

/// The first attribute with id `id` that has a raw counter, if any.
pub open spec fn first_raw(attrs: Seq<ReportAttr>, id: u32) -> Option<u64>
    decreases attrs.len(),
{
    if attrs.len() == 0 {
        None
    } else if attrs[0].id == id && raw_value(attrs[0]) is Some {
        raw_value(attrs[0])
    } else {
        first_raw(attrs.drop_first(), id)
    }
}

pub open spec fn or_else<T>(a: Option<T>, b: Option<T>) -> Option<T> {
    if a is Some {
        a
    } else {
        b
    }
}

pub open spec fn report_attrs(rep: SmartReport) -> Seq<ReportAttr> {
    match rep.attributes {
        Some(v) => v@,
        None => seq![],
    }
}

/// Power-on hours: the top-level figure, else the raw counter of
/// attribute 9, else the NVMe log's.
pub open spec fn hours_of(rep: SmartReport) -> Option<u64> {
    or_else(
        or_else(rep.power_on_hours, first_raw(report_attrs(rep), 9)),
        match rep.nvme {
            Some(l) => l.power_on_hours,
            None => None,
        },
    )
}

/// Power cycles: the top-level figure, else attribute 12, else the NVMe
/// log's.
pub open spec fn cycles_of(rep: SmartReport) -> Option<u64> {
    or_else(
        or_else(rep.power_cycle_count, first_raw(report_attrs(rep), 12)),
        match rep.nvme {
            Some(l) => l.power_cycles,
            None => None,
        },
    )
}

/// Temperature: the top-level current reading, else the NVMe log's.
pub open spec fn temperature_of(rep: SmartReport) -> Option<i32> {
    match or_else(
        rep.temperature,
        match rep.nvme {
            Some(l) => l.temperature,
            None => None,
        },
    ) {
        Some(t) => Some(t as i32),
        None => None,
    }
}

fn clone_opt(o: &Option<String>) -> (r: Option<String>)
    ensures
        opt_view(r) == opt_view(*o),
{
    match o {
        Some(s) => Some(s.clone()),
        None => None,
    }
}

fn show_attr(a: &ReportAttr) -> (s: SmartAttr)
    ensures
        shows(s, *a),
{
    let failing = match (a.value, a.thresh) {
        (Some(v), Some(th)) => th > 0 && v <= th,
        _ => false,
    };
    let (raw, raw_s) = match &a.raw {
        Some(r) => (r.value, clone_opt(&r.string)),
        None => (None, None),
    };
    SmartAttr {
        id: a.id,
        name: a.name.clone(),
        value: a.value,
        worst: a.worst,
        thresh: a.thresh,
        raw,
        raw_string: raw_s,
        failing,
    }
}

/// The SMART health of disk `name` from a report: each attribute with its
/// failing mark, the power-on hours, cycles and temperature each taken
/// from the first source that has it, the NVMe counters, and the note "no
/// SMART data reported" exactly when all of these are absent.
pub fn smart_result(name: String, rep: SmartReport) -> (r: DiskSmart)
    ensures
        r.name@ == name@,
        opt_view(r.device_type) == opt_view(rep.device_type),
        opt_view(r.model) == opt_view(rep.model_name),
        opt_view(r.serial) == opt_view(rep.serial_number),
        r.healthy == rep.passed,
        r.attributes@.len() == report_attrs(rep).len(),
        forall|i: int| 0 <= i < r.attributes@.len() ==> shows(#[trigger] r.attributes@[i], report_attrs(rep)[i]),
        r.power_on_hours == hours_of(rep),
        r.power_cycle_count == cycles_of(rep),
        r.temperature == temperature_of(rep),
        r.nvme is Some <==> rep.nvme is Some,
        r.nvme matches Some(n) ==> (rep.nvme matches Some(l) && n.media_errors == l.media_errors
            && n.unsafe_shutdowns == l.unsafe_shutdowns && n.controller_busy_time == l.controller_busy_time),
        r.note is Some <==> (rep.passed is None && report_attrs(rep).len() == 0 && rep.nvme is None
            && hours_of(rep) is None && cycles_of(rep) is None && temperature_of(rep) is None),
        r.note matches Some(m) ==> m@ == "no SMART data reported"@,
        !r.smartctl_missing,
{
    let ghost attrs = report_attrs(rep);
    let mut hours = rep.power_on_hours;
    let mut cycles = rep.power_cycle_count;
    let mut shown: Vec<SmartAttr> = Vec::new();
    match &rep.attributes {
        Some(table) => {
            let mut i: usize = 0;
            assert(attrs.skip(0) =~= attrs);
            while i < table.len()
                invariant
                    i <= table@.len(),
                    attrs == table@,
                    shown@.len() == i,
                    forall|k: int| 0 <= k < i ==> shows(#[trigger] shown@[k], attrs[k]),
                    or_else(rep.power_on_hours, first_raw(attrs, 9)) == or_else(hours, first_raw(attrs.skip(i as int), 9)),
                    or_else(rep.power_cycle_count, first_raw(attrs, 12)) == or_else(cycles, first_raw(attrs.skip(i as int), 12)),
                decreases table@.len() - i,
            {
                let a = &table[i];
                let ghost rest = attrs.skip(i as int);
                assert(rest[0] == attrs[i as int]);
                assert(rest.drop_first() =~= attrs.skip(i + 1));
                let s = show_attr(a);
                if a.id == 9 && hours.is_none() {
                    hours = s.raw;
                }
                if a.id == 12 && cycles.is_none() {
                    cycles = s.raw;
                }
                shown.push(s);
                i += 1;
            }
            assert(attrs.skip(i as int) =~= Seq::<ReportAttr>::empty());
        },
        None => {},
    }
    let mut nvme: Option<NvmeCounters> = None;
    let mut nvme_temp: Option<i64> = None;
    match &rep.nvme {
        Some(log) => {
            if hours.is_none() {
                hours = log.power_on_hours;
            }
            if cycles.is_none() {
                cycles = log.power_cycles;
            }
            nvme_temp = log.temperature;
            nvme = Some(
                NvmeCounters {
                    media_errors: log.media_errors,
                    unsafe_shutdowns: log.unsafe_shutdowns,
                    controller_busy_time: log.controller_busy_time,
                },
            );
        },
        None => {},
    }
    let temperature: Option<i32> = match rep.temperature {
        Some(t) => Some(t as i32),
        None => match nvme_temp {
            Some(t) => Some(t as i32),
            None => None,
        },
    };
    let absent = rep.passed.is_none() && shown.len() == 0 && nvme.is_none() && hours.is_none()
        && cycles.is_none() && temperature.is_none();
    DiskSmart {
        name,
        device_type: clone_opt(&rep.device_type),
        model: clone_opt(&rep.model_name),
        serial: clone_opt(&rep.serial_number),
        healthy: rep.passed,
        power_on_hours: hours,
        power_cycle_count: cycles,
        temperature,
        attributes: shown,
        nvme,
        note: if absent {
            Some(owned("no SMART data reported"))
        } else {
            None
        },
        smartctl_missing: false,
    }
}

/// An empty record with a note.
fn noted(name: String, note: String) -> (r: DiskSmart)
    ensures
        r.name@ == name@,
        (r.note matches Some(m) && m@ == note@),
        r.device_type is None && r.model is None && r.serial is None && r.healthy is None,
        r.power_on_hours is None && r.power_cycle_count is None && r.temperature is None,
        r.attributes@.len() == 0 && r.nvme is None && !r.smartctl_missing,
{
    DiskSmart {
        name,
        device_type: None,
        model: None,
        serial: None,
        healthy: None,
        power_on_hours: None,
        power_cycle_count: None,
        temperature: None,
        attributes: Vec::new(),
        nvme: None,
        note: Some(note),
        smartctl_missing: false,
    }
}

/// Why there is no report, when `smartctl` printed nothing readable: the
/// device could not be opened (exit bit 1: its error output), nothing was
/// printed, or what was printed could not be read.
pub open spec fn unreadable_note(code: i32, stdout: Seq<char>, stderr: Seq<char>) -> Seq<char> {
    if code & 2 != 0 {
        trim(stderr)
    } else if trim(stdout).len() == 0 {
        "smartctl produced no output"@
    } else {
        "could not parse smartctl output"@
    }
}

/// The record when `smartctl`'s output held no report: empty, with the
/// note saying why.
pub fn smart_unreadable(name: String, code: i32, stdout: &str, stderr: &str) -> (r: DiskSmart)
    ensures
        r.name@ == name@,
        (r.note matches Some(m) && m@ == unreadable_note(code, stdout@, stderr@)),
        r.device_type is None && r.model is None && r.serial is None && r.healthy is None,
        r.power_on_hours is None && r.power_cycle_count is None && r.temperature is None,
        r.attributes@.len() == 0 && r.nvme is None && !r.smartctl_missing,
{
    let note = if code & 2 != 0 {
        trim_str(stderr)
    } else if trim_str(stdout).as_str().is_empty() {
        owned("smartctl produced no output")
    } else {
        owned("could not parse smartctl output")
    };
    noted(name, note)
}

/// The record when `smartctl` is not installed: empty, no note, marked so
/// that the client can offer to install it.
pub fn smart_missing(name: String) -> (r: DiskSmart)
    ensures
        r.name@ == name@,
        r.smartctl_missing && r.note is None,
        r.device_type is None && r.model is None && r.serial is None && r.healthy is None,
        r.power_on_hours is None && r.power_cycle_count is None && r.temperature is None,
        r.attributes@.len() == 0 && r.nvme is None,
{
    DiskSmart {
        name,
        device_type: None,
        model: None,
        serial: None,
        healthy: None,
        power_on_hours: None,
        power_cycle_count: None,
        temperature: None,
        attributes: Vec::new(),
        nvme: None,
        note: None,
        smartctl_missing: true,
    }
}

} // verus!
