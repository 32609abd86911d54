//! Disks and partitions.
use vstd::prelude::*;
use crate::num::{parse_u32, parse_u64, parse_unsigned};
use crate::text::{find_str, find_sub, str_le, str_lt, string_lt, lemma_str_lt_total, lemma_str_le_trans, owned, split_lines, split_ws, starts_with, starts_with_str, str_eq, lines, trim, trim_str, words, chars_of, string_from, is_digit, is_digit_char};

verus! {

/// A disk as listed.
#[derive(Debug, Clone)]
pub struct Disk {
    pub name: String,
    pub descr: String,
    pub size_bytes: u64,
    pub rotation_rate: String,
}

/// One partition of a disk.
#[derive(Debug, Clone)]
pub struct Partition {
    pub name: String,
    pub mediasize_bytes: u64,
    pub sectorsize: u64,
    pub ptype: String,
    pub label: String,
    pub index: u32,
    pub start: u64,
    pub end: u64,
    pub offset_bytes: u64,
    pub rawuuid: String,
}

/// A disk with its partition table.
#[derive(Debug, Clone)]
pub struct DiskDetail {
    pub name: String,
    pub descr: String,
    pub size_bytes: u64,
    pub sectorsize: u64,
    pub mode: String,
    pub ident: String,
    pub lunid: String,
    pub rotation_rate: String,
    pub fwsectors: u64,
    pub fwheads: u64,
    pub scheme: Option<String>,
    pub state: Option<String>,
    pub first: Option<u64>,
    pub last: Option<u64>,
    pub entries: Option<u64>,
    pub partitions: Vec<Partition>,
}

/// One SMART attribute.
#[derive(Debug, Clone)]
pub struct SmartAttr {
    pub id: u32,
    pub name: String,
    pub value: Option<u64>,
    pub worst: Option<u64>,
    pub thresh: Option<u64>,
    pub raw: Option<u64>,
    pub raw_string: Option<String>,
    pub failing: bool,
}


// ───────────────────────── views ─────────────────────────

pub struct PartView {
    pub name: Seq<char>,
    pub mediasize: u64,
    pub sectorsize: u64,
    pub ptype: Seq<char>,
    pub label: Seq<char>,
    pub index: u32,
    pub start: u64,
    pub end: u64,
    pub offset: u64,
    pub rawuuid: Seq<char>,
}

pub struct DiskView {
    pub name: Seq<char>,
    pub descr: Seq<char>,
    pub size: u64,
    pub sectorsize: u64,
    pub mode: Seq<char>,
    pub ident: Seq<char>,
    pub lunid: Seq<char>,
    pub rotation: Seq<char>,
    pub fwsectors: u64,
    pub fwheads: u64,
    pub scheme: Option<Seq<char>>,
    pub state: Option<Seq<char>>,
    pub first: Option<u64>,
    pub last: Option<u64>,
    pub entries: Option<u64>,
    pub partitions: Seq<PartView>,
}

pub open spec fn part_view(p: Partition) -> PartView {
    PartView {
        name: p.name@,
        mediasize: p.mediasize_bytes,
        sectorsize: p.sectorsize,
        ptype: p.ptype@,
        label: p.label@,
        index: p.index,
        start: p.start,
        end: p.end,
        offset: p.offset_bytes,
        rawuuid: p.rawuuid@,
    }
}

pub open spec fn opt_str(o: Option<String>) -> Option<Seq<char>> {
    match o {
        Some(s) => Some(s@),
        None => None,
    }
}

pub open spec fn disk_view(d: DiskDetail) -> DiskView {
    DiskView {
        name: d.name@,
        descr: d.descr@,
        size: d.size_bytes,
        sectorsize: d.sectorsize,
        mode: d.mode@,
        ident: d.ident@,
        lunid: d.lunid@,
        rotation: d.rotation_rate@,
        fwsectors: d.fwsectors,
        fwheads: d.fwheads,
        scheme: opt_str(d.scheme),
        state: opt_str(d.state),
        first: d.first,
        last: d.last,
        entries: d.entries,
        partitions: d.partitions@.map_values(|p: Partition| part_view(p)),
    }
}

pub open spec fn disks_view(ds: Seq<DiskDetail>) -> Seq<DiskView> {
    ds.map_values(|d: DiskDetail| disk_view(d))
}

// ───────────────────────── numbers in `geom` output ─────────────────────────

/// `v.trim().parse::<u64>().unwrap_or(0)`.
pub open spec fn num_or_zero(v: Seq<char>) -> u64 {
    match parse_unsigned(trim(v), u64::MAX as nat) {
        Some(n) => n as u64,
        None => 0,
    }
}

/// `v.trim().parse::<u64>().ok()`.
pub open spec fn num_opt(v: Seq<char>) -> Option<u64> {
    match parse_unsigned(trim(v), u64::MAX as nat) {
        Some(n) => Some(n as u64),
        None => None,
    }
}

/// `v.trim().parse::<u32>().unwrap_or(0)`.
pub open spec fn num32_or_zero(v: Seq<char>) -> u32 {
    match parse_unsigned(trim(v), u32::MAX as nat) {
        Some(n) => n as u32,
        None => 0,
    }
}

/// The first word of `v` as a number (`0` if missing or not a number):
/// `Mediasize: 2000398934016 (1.8T)`.
pub open spec fn first_word_num(v: Seq<char>) -> u64 {
    let ws = words(v);
    match parse_unsigned(if ws.len() > 0 { ws[0] } else { "0"@ }, u64::MAX as nat) {
        Some(n) => n as u64,
        None => 0,
    }
}

fn num_or_zero_exec(v: &str) -> (r: u64)
    ensures
        r == num_or_zero(v@),
{
    let t = trim_str(v);
    match parse_u64(t.as_str()) {
        Some(n) => n,
        None => 0,
    }
}

fn num_opt_exec(v: &str) -> (r: Option<u64>)
    ensures
        r == num_opt(v@),
{
    let t = trim_str(v);
    parse_u64(t.as_str())
}

fn num32_or_zero_exec(v: &str) -> (r: u32)
    ensures
        r == num32_or_zero(v@),
{
    let t = trim_str(v);
    match parse_u32(t.as_str()) {
        Some(n) => n,
        None => 0,
    }
}

fn first_word_num_exec(v: &str) -> (r: u64)
    ensures
        r == first_word_num(v@),
{
    let ws = split_ws(v);
    let ghost wv = ws.deep_view();
    let w = if ws.len() > 0 {
        assert(wv[0] == ws@[0]@);
        ws[0].clone()
    } else {
        owned("0")
    };
    match parse_u64(w.as_str()) {
        Some(n) => n,
        None => 0,
    }
}

/// The rest of `t` after `p`, when `t` starts with `p`.
pub open spec fn after(t: Seq<char>, p: Seq<char>) -> Seq<char> {
    t.skip(p.len() as int)
}

fn after_exec(t: &str, p: &str) -> (r: String)
    requires
        starts_with(t@, p@),
    ensures
        r@ == after(t@, p@),
{
    let v = chars_of(t);
    let n = chars_of(p).len();
    assert(v@.subrange(n as int, v@.len() as int) =~= v@.skip(n as int));
    string_from(&v, n, v.len())
}

// ───────────────────────── `geom part list` ─────────────────────────

pub open spec fn empty_part() -> PartView {
    PartView {
        name: seq![],
        mediasize: 0,
        sectorsize: 0,
        ptype: seq![],
        label: seq![],
        index: 0,
        start: 0,
        end: 0,
        offset: 0,
        rawuuid: seq![],
    }
}

/// First disk with the given name.
pub open spec fn find_disk(ds: Seq<DiskView>, name: Seq<char>) -> Option<int>
    decreases ds.len(),
{
    if ds.len() == 0 {
        None
    } else if ds[0].name == name {
        Some(0)
    } else {
        match find_disk(ds.drop_first(), name) {
            Some(i) => Some(i + 1),
            None => None,
        }
    }
}

proof fn lemma_find_disk(ds: Seq<DiskView>, name: Seq<char>, i: int)
    requires
        0 <= i <= ds.len(),
        forall|k: int| 0 <= k < i ==> ds[k].name != name,
        i == ds.len() || ds[i].name == name,
    ensures
        find_disk(ds, name) == if i == ds.len() {
            None::<int>
        } else {
            Some(i)
        },
    decreases i,
{
    if i > 0 {
        let t = ds.drop_first();
        assert forall|k: int| 0 <= k < i - 1 implies t[k].name != name by {
            assert(t[k] == ds[k + 1]);
        }
        if i < ds.len() {
            assert(t[i - 1] == ds[i]);
        }
        lemma_find_disk(t, name, i - 1);
    }
}

pub open spec fn with_part(d: DiskView, p: PartView) -> DiskView {
    DiskView { partitions: d.partitions.push(p), ..d }
}

/// A finished partition goes to the disk its block names, if that disk is
/// known.
pub open spec fn add_part(ds: Seq<DiskView>, name: Seq<char>, p: PartView) -> Seq<DiskView> {
    match find_disk(ds, name) {
        Some(i) => ds.update(i, with_part(ds[i], p)),
        None => ds,
    }
}

/// What a scan of `geom part list` has seen: the block's disk, whether it
/// is in the providers section, the partition being read, and the disks.
pub struct GeomScan {
    pub cur: Option<Seq<char>>,
    pub in_prov: bool,
    pub have_part: bool,
    pub part: PartView,
    pub disks: Seq<DiskView>,
}

pub open spec fn flush(st: GeomScan) -> GeomScan {
    if st.have_part {
        GeomScan {
            disks: match st.cur {
                Some(n) => add_part(st.disks, n, st.part),
                None => st.disks,
            },
            part: empty_part(),
            have_part: false,
            ..st
        }
    } else {
        st
    }
}

/// A provider header `N. Name: ...` (one digit, then `. `), trimmed after.
/// The number of decimal digits `t` starts with.
pub open spec fn digit_run(t: Seq<char>) -> nat
    decreases t.len(),
{
    if t.len() > 0 && is_digit(t[0]) {
        1 + digit_run(t.drop_first())
    } else {
        0
    }
}

/// A provider header `N. rest` (any number of digits, then `. `): the
/// trimmed rest.
pub open spec fn provider_rest(t: Seq<char>) -> Option<Seq<char>> {
    let n = digit_run(t);
    if n > 0 && starts_with(t.skip(n as int), ". "@) {
        Some(trim(t.skip(n as int + 2)))
    } else {
        None
    }
}

pub open spec fn part_field(p: PartView, t: Seq<char>) -> PartView {
    if starts_with(t, "Mediasize:"@) {
        PartView { mediasize: first_word_num(after(t, "Mediasize:"@)), ..p }
    } else if starts_with(t, "Sectorsize:"@) {
        PartView { sectorsize: num_or_zero(after(t, "Sectorsize:"@)), ..p }
    } else if starts_with(t, "type:"@) {
        PartView { ptype: trim(after(t, "type:"@)), ..p }
    } else if starts_with(t, "label:"@) {
        PartView { label: trim(after(t, "label:"@)), ..p }
    } else if starts_with(t, "index:"@) {
        PartView { index: num32_or_zero(after(t, "index:"@)), ..p }
    } else if starts_with(t, "start:"@) {
        PartView { start: num_or_zero(after(t, "start:"@)), ..p }
    } else if starts_with(t, "end:"@) {
        PartView { end: num_or_zero(after(t, "end:"@)), ..p }
    } else if starts_with(t, "offset:"@) {
        PartView { offset: num_or_zero(after(t, "offset:"@)), ..p }
    } else if starts_with(t, "rawuuid:"@) {
        PartView { rawuuid: trim(after(t, "rawuuid:"@)), ..p }
    } else {
        p
    }
}

pub open spec fn meta_field(d: DiskView, t: Seq<char>) -> DiskView {
    if starts_with(t, "scheme:"@) {
        DiskView { scheme: Some(trim(after(t, "scheme:"@))), ..d }
    } else if starts_with(t, "state:"@) {
        DiskView { state: Some(trim(after(t, "state:"@))), ..d }
    } else if starts_with(t, "first:"@) {
        DiskView { first: num_opt(after(t, "first:"@)), ..d }
    } else if starts_with(t, "last:"@) {
        DiskView { last: num_opt(after(t, "last:"@)), ..d }
    } else if starts_with(t, "entries:"@) {
        DiskView { entries: num_opt(after(t, "entries:"@)), ..d }
    } else {
        d
    }
}

pub open spec fn geom_step(st: GeomScan, raw: Seq<char>) -> GeomScan {
    let t = trim(raw);
    if starts_with(t, "Geom name:"@) {
        GeomScan { cur: Some(trim(after(t, "Geom name:"@))), in_prov: false, ..flush(st) }
    } else if t == "Providers:"@ {
        GeomScan { in_prov: true, ..st }
    } else if t == "Consumers:"@ {
        GeomScan { in_prov: false, ..flush(st) }
    } else {
        match st.cur {
            None => st,
            Some(n) => if st.in_prov {
                if provider_rest(t) is Some && starts_with(provider_rest(t)->0, "Name:"@) {
                    let f = flush(st);
                    GeomScan {
                        part: PartView { name: trim(after(provider_rest(t)->0, "Name:"@)), ..f.part },
                        have_part: true,
                        ..f
                    }
                } else if st.have_part {
                    GeomScan { part: part_field(st.part, t), ..st }
                } else {
                    st
                }
            } else {
                match find_disk(st.disks, n) {
                    Some(i) => GeomScan {
                        disks: st.disks.update(i, meta_field(st.disks[i], t)),
                        ..st
                    },
                    None => st,
                }
            },
        }
    }
}

pub open spec fn geom_scan(ls: Seq<Seq<char>>, st0: GeomScan) -> GeomScan
    decreases ls.len(),
{
    if ls.len() == 0 {
        st0
    } else {
        geom_step(geom_scan(ls.drop_last(), st0), ls.last())
    }
}

/// The disks after `geom part list` output is read onto them.
pub open spec fn geom_part_result(raw: Seq<char>, ds: Seq<DiskView>) -> Seq<DiskView> {
    flush(
        geom_scan(
            lines(raw),
            GeomScan { cur: None, in_prov: false, have_part: false, part: empty_part(), disks: ds },
        ),
    ).disks
}


pub open spec fn scan_of(
    cur: Option<String>,
    in_prov: bool,
    have_part: bool,
    part: Partition,
    disks: Seq<DiskDetail>,
) -> GeomScan {
    GeomScan {
        cur: opt_str(cur),
        in_prov,
        have_part,
        part: part_view(part),
        disks: disks_view(disks),
    }
}

fn empty_partition() -> (p: Partition)
    ensures
        part_view(p) == empty_part(),
{
    Partition {
        name: String::new(),
        mediasize_bytes: 0,
        sectorsize: 0,
        ptype: String::new(),
        label: String::new(),
        index: 0,
        start: 0,
        end: 0,
        offset_bytes: 0,
        rawuuid: String::new(),
    }
}

fn find_disk_idx(disks: &Vec<DiskDetail>, name: &str) -> (r: Option<usize>)
    ensures
        match r {
            Some(i) => find_disk(disks_view(disks@), name@) == Some(i as int) && i < disks@.len(),
            None => find_disk(disks_view(disks@), name@) is None,
        },
{
    let ghost dv = disks_view(disks@);
    let mut i: usize = 0;
    while i < disks.len()
        invariant
            i <= disks@.len() == dv.len(),
            dv == disks_view(disks@),
            forall|k: int| 0 <= k < i ==> dv[k].name != name@,
        decreases disks@.len() - i,
    {
        assert(dv[i as int].name == disks@[i as int].name@);
        if str_eq(disks[i].name.as_str(), name) {
            proof {
                lemma_find_disk(dv, name@, i as int);
            }
            return Some(i);
        }
        i += 1;
    }
    proof {
        lemma_find_disk(dv, name@, i as int);
    }
    None
}

fn copy_partition(p: &Partition) -> (r: Partition)
    ensures
        part_view(r) == part_view(*p),
{
    Partition {
        name: p.name.clone(),
        mediasize_bytes: p.mediasize_bytes,
        sectorsize: p.sectorsize,
        ptype: p.ptype.clone(),
        label: p.label.clone(),
        index: p.index,
        start: p.start,
        end: p.end,
        offset_bytes: p.offset_bytes,
        rawuuid: p.rawuuid.clone(),
    }
}

fn add_part_exec(disks: &mut Vec<DiskDetail>, name: &str, p: Partition)
    ensures
        disks_view(final(disks)@) == add_part(disks_view(old(disks)@), name@, part_view(p)),
{
    match find_disk_idx(disks, name) {
        Some(i) => {
            let ghost old_v = disks@;
            let mut d = disks.remove(i);
            let ghost pv0 = d.partitions@;
            d.partitions.push(p);
            assert(d.partitions@.map_values(|q: Partition| part_view(q)) =~= pv0.map_values(
                |q: Partition| part_view(q),
            ).push(part_view(p)));
            disks.insert(i, d);
            assert(disks@ =~= old_v.update(i as int, d));
            assert(disk_view(d) == with_part(disk_view(old_v[i as int]), part_view(p)));
            assert(disks_view(disks@) =~= disks_view(old_v).update(
                i as int,
                with_part(disks_view(old_v)[i as int], part_view(p)),
            ));
        },
        None => {},
    }
}

fn flush_exec(
    have_part: &mut bool,
    cur: &Option<String>,
    in_prov: bool,
    part: &mut Partition,
    disks: &mut Vec<DiskDetail>,
)
    ensures
        scan_of(*cur, in_prov, *final(have_part), *final(part), final(disks)@) == flush(
            scan_of(*cur, in_prov, *old(have_part), *old(part), old(disks)@),
        ),
{
    if *have_part {
        match cur {
            Some(n) => {
                let p = copy_partition(part);
                add_part_exec(disks, n.as_str(), p);
            },
            None => {},
        }
        *part = empty_partition();
        *have_part = false;
    }
}

fn part_field_exec(p: &mut Partition, t: &str)
    ensures
        part_view(*final(p)) == part_field(part_view(*old(p)), t@),
{
    if starts_with_str(t, "Mediasize:") {
        let v = after_exec(t, "Mediasize:");
        p.mediasize_bytes = first_word_num_exec(v.as_str());
    } else if starts_with_str(t, "Sectorsize:") {
        let v = after_exec(t, "Sectorsize:");
        p.sectorsize = num_or_zero_exec(v.as_str());
    } else if starts_with_str(t, "type:") {
        let v = after_exec(t, "type:");
        p.ptype = trim_str(v.as_str());
    } else if starts_with_str(t, "label:") {
        let v = after_exec(t, "label:");
        p.label = trim_str(v.as_str());
    } else if starts_with_str(t, "index:") {
        let v = after_exec(t, "index:");
        p.index = num32_or_zero_exec(v.as_str());
    } else if starts_with_str(t, "start:") {
        let v = after_exec(t, "start:");
        p.start = num_or_zero_exec(v.as_str());
    } else if starts_with_str(t, "end:") {
        let v = after_exec(t, "end:");
        p.end = num_or_zero_exec(v.as_str());
    } else if starts_with_str(t, "offset:") {
        let v = after_exec(t, "offset:");
        p.offset_bytes = num_or_zero_exec(v.as_str());
    } else if starts_with_str(t, "rawuuid:") {
        let v = after_exec(t, "rawuuid:");
        p.rawuuid = trim_str(v.as_str());
    }
}

fn meta_field_exec(d: &mut DiskDetail, t: &str)
    ensures
        disk_view(*final(d)) == meta_field(disk_view(*old(d)), t@),
{
    if starts_with_str(t, "scheme:") {
        let v = after_exec(t, "scheme:");
        d.scheme = Some(trim_str(v.as_str()));
    } else if starts_with_str(t, "state:") {
        let v = after_exec(t, "state:");
        d.state = Some(trim_str(v.as_str()));
    } else if starts_with_str(t, "first:") {
        let v = after_exec(t, "first:");
        d.first = num_opt_exec(v.as_str());
    } else if starts_with_str(t, "last:") {
        let v = after_exec(t, "last:");
        d.last = num_opt_exec(v.as_str());
    } else if starts_with_str(t, "entries:") {
        let v = after_exec(t, "entries:");
        d.entries = num_opt_exec(v.as_str());
    }
}

fn provider_rest_exec(t: &str) -> (r: Option<String>)
    ensures
        opt_str(r) == provider_rest(t@),
{
    let v = chars_of(t);
    let mut i: usize = 0;
    assert(t@.skip(0) =~= t@);
    while i < v.len() && is_digit_char(v[i])
        invariant
            i <= v@.len(),
            v@ == t@,
            digit_run(t@) == i + digit_run(t@.skip(i as int)),
        decreases v@.len() - i,
    {
        assert(t@.skip(i as int).drop_first() =~= t@.skip(i + 1));
        i += 1;
    }
    assert(digit_run(t@.skip(i as int)) == 0);
    if i > 0 {
        let tail = string_from(&v, i, v.len());
        assert(tail@ =~= t@.skip(i as int));
        if starts_with_str(tail.as_str(), ". ") {
            proof {
                reveal_strlit(". ");
            }
            let rest = string_from(&v, i + 2, v.len());
            assert(rest@ =~= t@.skip(i + 2));
            return Some(trim_str(rest.as_str()));
        }
    }
    None
}

fn geom_line(
    cur: &mut Option<String>,
    in_prov: &mut bool,
    have_part: &mut bool,
    part: &mut Partition,
    disks: &mut Vec<DiskDetail>,
    raw: &str,
)
    ensures
        scan_of(*final(cur), *final(in_prov), *final(have_part), *final(part), final(disks)@)
            == geom_step(scan_of(*old(cur), *old(in_prov), *old(have_part), *old(part), old(disks)@), raw@),
{
    let t = trim_str(raw);
    if starts_with_str(t.as_str(), "Geom name:") {
        flush_exec(have_part, cur, *in_prov, part, disks);
        let v = after_exec(t.as_str(), "Geom name:");
        *cur = Some(trim_str(v.as_str()));
        *in_prov = false;
        return;
    }
    if str_eq(t.as_str(), "Providers:") {
        *in_prov = true;
        return;
    }
    if str_eq(t.as_str(), "Consumers:") {
        flush_exec(have_part, cur, *in_prov, part, disks);
        *in_prov = false;
        return;
    }
    let n = match cur {
        None => {
            return;
        },
        Some(n) => n.clone(),
    };
    if *in_prov {
        let pr = provider_rest_exec(t.as_str());
        match pr {
            Some(rest) => {
                if starts_with_str(rest.as_str(), "Name:") {
                    flush_exec(have_part, cur, *in_prov, part, disks);
                    let v = after_exec(rest.as_str(), "Name:");
                    part.name = trim_str(v.as_str());
                    *have_part = true;
                    return;
                }
            },
            None => {},
        }
        if *have_part {
            part_field_exec(part, t.as_str());
        }
    } else {
        match find_disk_idx(disks, n.as_str()) {
            Some(i) => {
                let ghost old_v = disks@;
                let mut d = disks.remove(i);
                meta_field_exec(&mut d, t.as_str());
                disks.insert(i, d);
                assert(disks@ =~= old_v.update(i as int, d));
                assert(disks_view(disks@) =~= disks_view(old_v).update(
                    i as int,
                    meta_field(disks_view(old_v)[i as int], t@),
                ));
            },
            None => {},
        }
    }
}

/// Reads `geom part list` output onto the disks: each `Geom name:` block
/// gives its disk (the first with that name) the scheme, state, first,
/// last and entries lines of its head, and one partition per provider
/// (`N. Name: ...` and the lines after it up to the next provider,
/// `Consumers:` or block). Blocks of unknown disks change nothing.
pub fn parse_geom_part(raw: &str, disks: &mut Vec<DiskDetail>)
    ensures
        disks_view(final(disks)@) == geom_part_result(raw@, disks_view(old(disks)@)),
{
    let ls = split_lines(raw);
    let ghost lv = ls.deep_view();
    let ghost st0 = GeomScan {
        cur: None,
        in_prov: false,
        have_part: false,
        part: empty_part(),
        disks: disks_view(disks@),
    };
    let mut cur: Option<String> = None;
    let mut in_prov = false;
    let mut have_part = false;
    let mut part = empty_partition();
    let mut i: usize = 0;
    assert(lv.take(0) =~= Seq::<Seq<char>>::empty());
    while i < ls.len()
        invariant
            i <= ls@.len() == lv.len(),
            lv == ls.deep_view(),
            lv == lines(raw@),
            scan_of(cur, in_prov, have_part, part, disks@) == geom_scan(lv.take(i as int), st0),
        decreases ls@.len() - i,
    {
        geom_line(&mut cur, &mut in_prov, &mut have_part, &mut part, disks, ls[i].as_str());
        assert(lv.take(i + 1).drop_last() =~= lv.take(i as int));
        i += 1;
    }
    assert(lv.take(i as int) =~= lv);
    flush_exec(&mut have_part, &cur, in_prov, &mut part, disks);
}


// ───────────────────────── `geom disk list` ─────────────────────────

/// A line with its `N. ` numbering taken off: when it starts with a digit,
/// the trimmed rest after the first `. `.
pub open spec fn unnumbered(t: Seq<char>) -> Seq<char> {
    if t.len() > 0 && is_digit(t[0]) {
        match find_sub(t, ". "@) {
            Some(i) => trim(t.skip(i + 2)),
            None => t,
        }
    } else {
        t
    }
}

fn unnumbered_exec(t: &str) -> (r: String)
    ensures
        r@ == unnumbered(t@),
{
    proof {
        reveal_strlit(". ");
    }
    let v = chars_of(t);
    if v.len() > 0 && is_digit_char(v[0]) {
        match find_str(t, ". ") {
            Some(i) => {
                let rest = string_from(&v, i + 2, v.len());
                assert(rest@ =~= t@.skip(i + 2));
                return trim_str(rest.as_str());
            },
            None => {},
        }
    }
    owned(t)
}

pub open spec fn new_disk(name: Seq<char>) -> DiskView {
    DiskView {
        name,
        descr: seq![],
        size: 0,
        sectorsize: 0,
        mode: seq![],
        ident: seq![],
        lunid: seq![],
        rotation: seq![],
        fwsectors: 0,
        fwheads: 0,
        scheme: None,
        state: None,
        first: None,
        last: None,
        entries: None,
        partitions: seq![],
    }
}

pub open spec fn disk_field(d: DiskView, t: Seq<char>) -> DiskView {
    if starts_with(t, "Mediasize:"@) {
        DiskView { size: first_word_num(after(t, "Mediasize:"@)), ..d }
    } else if starts_with(t, "Sectorsize:"@) {
        DiskView { sectorsize: num_or_zero(after(t, "Sectorsize:"@)), ..d }
    } else if starts_with(t, "Mode:"@) {
        DiskView { mode: trim(after(t, "Mode:"@)), ..d }
    } else if starts_with(t, "descr:"@) {
        DiskView { descr: trim(after(t, "descr:"@)), ..d }
    } else if starts_with(t, "lunid:"@) {
        DiskView { lunid: trim(after(t, "lunid:"@)), ..d }
    } else if starts_with(t, "ident:"@) {
        DiskView { ident: trim(after(t, "ident:"@)), ..d }
    } else if starts_with(t, "rotationrate:"@) {
        DiskView { rotation: trim(after(t, "rotationrate:"@)), ..d }
    } else if starts_with(t, "fwsectors:"@) {
        DiskView { fwsectors: num_or_zero(after(t, "fwsectors:"@)), ..d }
    } else if starts_with(t, "fwheads:"@) {
        DiskView { fwheads: num_or_zero(after(t, "fwheads:"@)), ..d }
    } else {
        d
    }
}

/// A disk goes in place of an earlier one of the same name, or at the end.
pub open spec fn insert_disk(ds: Seq<DiskView>, d: DiskView) -> Seq<DiskView> {
    match find_disk(ds, d.name) {
        Some(i) => ds.update(i, d),
        None => ds.push(d),
    }
}

/// The disks kept so far, the disk being read and whether there is one.
pub struct DiskScan {
    pub out: Seq<DiskView>,
    pub cur: DiskView,
    pub have: bool,
}

/// A disk is kept only when its size is known and not zero (so `cd0` is not).
pub open spec fn keep_cur(st: DiskScan) -> Seq<DiskView> {
    if st.have && st.cur.size > 0 {
        insert_disk(st.out, st.cur)
    } else {
        st.out
    }
}

pub open spec fn disk_step(st: DiskScan, raw: Seq<char>) -> DiskScan {
    let t = unnumbered(trim(raw));
    if starts_with(t, "Name:"@) {
        DiskScan { out: keep_cur(st), cur: new_disk(trim(after(t, "Name:"@))), have: true }
    } else if st.have {
        DiskScan { cur: disk_field(st.cur, t), ..st }
    } else {
        st
    }
}

pub open spec fn disk_scan(ls: Seq<Seq<char>>) -> DiskScan
    decreases ls.len(),
{
    if ls.len() == 0 {
        DiskScan { out: seq![], cur: new_disk(seq![]), have: false }
    } else {
        disk_step(disk_scan(ls.drop_last()), ls.last())
    }
}

/// The disks of `geom disk list` output, one per name (a later block of
/// the same name replaces an earlier one), zero-size ones left out.
pub open spec fn geom_disks(raw: Seq<char>) -> Seq<DiskView> {
    keep_cur(disk_scan(lines(raw)))
}

fn new_disk_exec(name: String) -> (d: DiskDetail)
    ensures
        disk_view(d) == new_disk(name@),
{
    let d = DiskDetail {
        name,
        descr: String::new(),
        size_bytes: 0,
        sectorsize: 0,
        mode: String::new(),
        ident: String::new(),
        lunid: String::new(),
        rotation_rate: String::new(),
        fwsectors: 0,
        fwheads: 0,
        scheme: None,
        state: None,
        first: None,
        last: None,
        entries: None,
        partitions: Vec::new(),
    };
    assert(d.partitions@.map_values(|p: Partition| part_view(p)) =~= Seq::<PartView>::empty());
    d
}

fn disk_field_exec(d: &mut DiskDetail, t: &str)
    ensures
        disk_view(*final(d)) == disk_field(disk_view(*old(d)), t@),
{
    if starts_with_str(t, "Mediasize:") {
        let v = after_exec(t, "Mediasize:");
        d.size_bytes = first_word_num_exec(v.as_str());
    } else if starts_with_str(t, "Sectorsize:") {
        let v = after_exec(t, "Sectorsize:");
        d.sectorsize = num_or_zero_exec(v.as_str());
    } else if starts_with_str(t, "Mode:") {
        let v = after_exec(t, "Mode:");
        d.mode = trim_str(v.as_str());
    } else if starts_with_str(t, "descr:") {
        let v = after_exec(t, "descr:");
        d.descr = trim_str(v.as_str());
    } else if starts_with_str(t, "lunid:") {
        let v = after_exec(t, "lunid:");
        d.lunid = trim_str(v.as_str());
    } else if starts_with_str(t, "ident:") {
        let v = after_exec(t, "ident:");
        d.ident = trim_str(v.as_str());
    } else if starts_with_str(t, "rotationrate:") {
        let v = after_exec(t, "rotationrate:");
        d.rotation_rate = trim_str(v.as_str());
    } else if starts_with_str(t, "fwsectors:") {
        let v = after_exec(t, "fwsectors:");
        d.fwsectors = num_or_zero_exec(v.as_str());
    } else if starts_with_str(t, "fwheads:") {
        let v = after_exec(t, "fwheads:");
        d.fwheads = num_or_zero_exec(v.as_str());
    }
}

fn insert_disk_exec(out: &mut Vec<DiskDetail>, d: DiskDetail)
    ensures
        disks_view(final(out)@) == insert_disk(disks_view(old(out)@), disk_view(d)),
{
    let ghost old_v = out@;
    match find_disk_idx(out, d.name.as_str()) {
        Some(i) => {
            let _old = out.remove(i);
            out.insert(i, d);
            assert(out@ =~= old_v.update(i as int, d));
            assert(disks_view(out@) =~= disks_view(old_v).update(i as int, disk_view(d)));
        },
        None => {
            out.push(d);
            assert(disks_view(out@) =~= disks_view(old_v).push(disk_view(d)));
        },
    }
}

/// The disks of `geom disk list` output (see `geom_disks`), in the order
/// they first appear.
pub fn parse_geom_disks(raw: &str) -> (r: Vec<DiskDetail>)
    ensures
        disks_view(r@) == geom_disks(raw@),
{
    let ls = split_lines(raw);
    let ghost lv = ls.deep_view();
    let mut out: Vec<DiskDetail> = Vec::new();
    let mut cur = new_disk_exec(String::new());
    let mut have = false;
    let mut i: usize = 0;
    assert(lv.take(0) =~= Seq::<Seq<char>>::empty());
    assert(disks_view(out@) =~= Seq::<DiskView>::empty());
    while i < ls.len()
        invariant
            i <= ls@.len() == lv.len(),
            lv == ls.deep_view(),
            lv == lines(raw@),
            disk_scan(lv.take(i as int)) == (DiskScan {
                out: disks_view(out@),
                cur: disk_view(cur),
                have,
            }),
        decreases ls@.len() - i,
    {
        let t0 = trim_str(ls[i].as_str());
        let t = unnumbered_exec(t0.as_str());
        assert(lv.take(i + 1).drop_last() =~= lv.take(i as int));
        assert(lv.take(i + 1).last() == ls@[i as int]@);
        if starts_with_str(t.as_str(), "Name:") {
            let v = after_exec(t.as_str(), "Name:");
            let mut prev = new_disk_exec(trim_str(v.as_str()));
            std::mem::swap(&mut cur, &mut prev);
            if have && prev.size_bytes > 0 {
                insert_disk_exec(&mut out, prev);
            }
            have = true;
        } else if have {
            disk_field_exec(&mut cur, t.as_str());
        }
        i += 1;
    }
    assert(lv.take(i as int) =~= lv);
    if have && cur.size_bytes > 0 {
        insert_disk_exec(&mut out, cur);
    }
    out
}

// ───────────────────────── order by name ─────────────────────────

pub open spec fn sorted_by_name(ds: Seq<DiskView>) -> bool {
    forall|i: int, j: int| 0 <= i < j < ds.len() ==> str_le(#[trigger] ds[i].name, #[trigger] ds[j].name)
}

proof fn lemma_insert_sorted_disk(s: Seq<DiskView>, k: int, x: DiskView)
    requires
        sorted_by_name(s),
        0 <= k <= s.len(),
        forall|a: int| 0 <= a < k ==> str_le(#[trigger] s[a].name, x.name),
        k < s.len() ==> str_lt(x.name, s[k].name),
    ensures
        sorted_by_name(s.insert(k, x)),
{
    let t = s.insert(k, x);
    assert forall|i: int, j: int| 0 <= i < j < t.len() implies str_le(
        #[trigger] t[i].name,
        #[trigger] t[j].name,
    ) by {
        if j < k {
            assert(t[i] == s[i] && t[j] == s[j]);
        } else if j == k {
            assert(t[i] == s[i] && t[j] == x);
        } else if i < k {
            assert(t[i] == s[i] && t[j] == s[j - 1]);
            assert(str_le(s[i].name, x.name));
            assert(str_le(s[k].name, s[j - 1].name));
            lemma_str_le_trans(x.name, s[k].name, s[j - 1].name);
            lemma_str_le_trans(s[i].name, x.name, s[j - 1].name);
        } else if i == k {
            assert(t[i] == x && t[j] == s[j - 1]);
            if j - 1 > k {
                assert(str_le(s[k].name, s[j - 1].name));
            }
            lemma_str_le_trans(x.name, s[k].name, s[j - 1].name);
        } else {
            assert(t[i] == s[i - 1] && t[j] == s[j - 1]);
        }
    }
}

/// The disks ordered by name (`sort_by` on names: stable, code-point order).
pub fn sort_disks_by_name(v: Vec<DiskDetail>) -> (r: Vec<DiskDetail>)
    ensures
        sorted_by_name(disks_view(r@)),
        disks_view(r@).to_multiset() == disks_view(v@).to_multiset(),
{
    broadcast use vstd::seq_lib::group_to_multiset_ensures;

    let ghost v0 = disks_view(v@);
    let mut src = v;
    let mut out: Vec<DiskDetail> = Vec::new();
    assert(disks_view(out@) =~= Seq::<DiskView>::empty());
    assert(v0.skip(v0.len() as int) =~= Seq::<DiskView>::empty());
    assert(disks_view(src@) =~= v0.take(src@.len() as int));
    while src.len() > 0
        invariant
            src@.len() <= v0.len(),
            disks_view(src@) == v0.take(src@.len() as int),
            sorted_by_name(disks_view(out@)),
            disks_view(out@).to_multiset() == v0.skip(src@.len() as int).to_multiset(),
        decreases src@.len(),
    {
        let ghost n = src@.len();
        let ghost old_src = src@;
        let x = src.pop().unwrap();
        let ghost xv = disk_view(x);
        assert(disks_view(old_src)[n - 1] == disk_view(old_src[n - 1]));
        assert(v0.take(n as int)[n - 1] == v0[n - 1]);
        assert(xv == v0[n - 1]);
        assert(disks_view(src@) =~= v0.take(n - 1));
        let mut k: usize = 0;
        while k < out.len() && !string_lt(&x.name, &out[k].name)
            invariant
                k <= out@.len(),
                xv == disk_view(x),
                forall|a: int| 0 <= a < k ==> str_le(#[trigger] disks_view(out@)[a].name, xv.name),
            decreases out@.len() - k,
        {
            assert(disks_view(out@)[k as int] == disk_view(out@[k as int]));
            proof {
                lemma_str_lt_total(xv.name, out@[k as int].name@);
            }
            k += 1;
        }
        proof {
            if k < out@.len() {
                assert(disks_view(out@)[k as int] == disk_view(out@[k as int]));
            }
            lemma_insert_sorted_disk(disks_view(out@), k as int, xv);
        }
        let ghost o0 = disks_view(out@);
        out.insert(k, x);
        assert(disks_view(out@) =~= o0.insert(k as int, xv));
        proof {
            vstd::seq_lib::to_multiset_insert(o0, k as int, xv);
            assert(v0.skip(n - 1) =~= v0.skip(n as int).insert(0, xv));
            vstd::seq_lib::to_multiset_insert(v0.skip(n as int), 0, xv);
        }
    }
    assert(v0.skip(0) =~= v0);
    out
}

/// The disk table: the disks of `geom disk list` output, with the partition
/// tables of `geom part list` output read onto them, ordered by name.
/// Either output may be missing (the command failed).
pub fn disk_details(disk_list: Option<&str>, part_list: Option<&str>) -> (r: Vec<DiskDetail>)
    ensures
        sorted_by_name(disks_view(r@)),
        disks_view(r@).to_multiset() == ({
            let ds = match disk_list {
                Some(raw) => geom_disks(raw@),
                None => seq![],
            };
            match part_list {
                Some(raw) => geom_part_result(raw@, ds),
                None => ds,
            }
        }).to_multiset(),
{
    let mut disks = match disk_list {
        Some(raw) => parse_geom_disks(raw),
        None => {
            let v: Vec<DiskDetail> = Vec::new();
            assert(disks_view(v@) =~= Seq::<DiskView>::empty());
            v
        },
    };
    match part_list {
        Some(raw) => parse_geom_part(raw, &mut disks),
        None => {},
    }
    sort_disks_by_name(disks)
}


// ───────────────────────── overview ─────────────────────────

pub struct DiskRow {
    pub name: Seq<char>,
    pub descr: Seq<char>,
    pub size: u64,
    pub rotation: Seq<char>,
}

pub open spec fn disk_row(d: Disk) -> DiskRow {
    DiskRow { name: d.name@, descr: d.descr@, size: d.size_bytes, rotation: d.rotation_rate@ }
}

pub open spec fn empty_row() -> DiskRow {
    DiskRow { name: seq![], descr: seq![], size: 0, rotation: seq![] }
}

/// A disk is listed when it has a name and a size.
pub open spec fn flush_row(out: Seq<DiskRow>, cur: DiskRow) -> Seq<DiskRow> {
    if cur.size > 0 && cur.name.len() > 0 {
        out.push(cur)
    } else {
        out
    }
}

pub open spec fn row_step(st: (Seq<DiskRow>, DiskRow), raw: Seq<char>) -> (Seq<DiskRow>, DiskRow) {
    let t = unnumbered(trim(raw));
    let (out, cur) = st;
    if starts_with(t, "Name:"@) {
        (flush_row(out, cur), DiskRow { name: trim(after(t, "Name:"@)), ..empty_row() })
    } else if starts_with(t, "Mediasize:"@) {
        (out, DiskRow { size: first_word_num(after(t, "Mediasize:"@)), ..cur })
    } else if starts_with(t, "descr:"@) {
        (out, DiskRow { descr: trim(after(t, "descr:"@)), ..cur })
    } else if starts_with(t, "rotationrate:"@) {
        (out, DiskRow { rotation: trim(after(t, "rotationrate:"@)), ..cur })
    } else {
        st
    }
}

pub open spec fn row_scan(ls: Seq<Seq<char>>) -> (Seq<DiskRow>, DiskRow)
    decreases ls.len(),
{
    if ls.len() == 0 {
        (seq![], empty_row())
    } else {
        row_step(row_scan(ls.drop_last()), ls.last())
    }
}

/// The physical disks of `geom disk list` output, in order, zero-size and
/// nameless ones left out.
pub open spec fn disk_rows(raw: Seq<char>) -> Seq<DiskRow> {
    let st = row_scan(lines(raw));
    flush_row(st.0, st.1)
}

pub open spec fn rows_view(ds: Seq<Disk>) -> Seq<DiskRow> {
    ds.map_values(|d: Disk| disk_row(d))
}

fn flush_row_exec(out: &mut Vec<Disk>, cur: Disk)
    ensures
        rows_view(final(out)@) == flush_row(rows_view(old(out)@), disk_row(cur)),
{
    if cur.size_bytes > 0 && !cur.name.as_str().is_empty() {
        let ghost o = out@;
        out.push(cur);
        assert(rows_view(out@) =~= rows_view(o).push(disk_row(cur)));
    }
}

fn empty_disk(name: String) -> (d: Disk)
    ensures
        disk_row(d) == (DiskRow { name: name@, ..empty_row() }),
{
    Disk { name, descr: String::new(), size_bytes: 0, rotation_rate: String::new() }
}

/// The disks of `geom disk list` output for the overview.
pub fn parse_disk_list(raw: &str) -> (r: Vec<Disk>)
    ensures
        rows_view(r@) == disk_rows(raw@),
{
    let ls = split_lines(raw);
    let ghost lv = ls.deep_view();
    let mut out: Vec<Disk> = Vec::new();
    let mut cur = empty_disk(String::new());
    let mut i: usize = 0;
    assert(lv.take(0) =~= Seq::<Seq<char>>::empty());
    assert(rows_view(out@) =~= Seq::<DiskRow>::empty());
    while i < ls.len()
        invariant
            i <= ls@.len() == lv.len(),
            lv == ls.deep_view(),
            lv == lines(raw@),
            row_scan(lv.take(i as int)) == (rows_view(out@), disk_row(cur)),
        decreases ls@.len() - i,
    {
        let t0 = trim_str(ls[i].as_str());
        let t = unnumbered_exec(t0.as_str());
        assert(lv.take(i + 1).drop_last() =~= lv.take(i as int));
        assert(lv.take(i + 1).last() == ls@[i as int]@);
        if starts_with_str(t.as_str(), "Name:") {
            let v = after_exec(t.as_str(), "Name:");
            let mut prev = empty_disk(trim_str(v.as_str()));
            std::mem::swap(&mut cur, &mut prev);
            flush_row_exec(&mut out, prev);
        } else if starts_with_str(t.as_str(), "Mediasize:") {
            let v = after_exec(t.as_str(), "Mediasize:");
            cur.size_bytes = first_word_num_exec(v.as_str());
        } else if starts_with_str(t.as_str(), "descr:") {
            let v = after_exec(t.as_str(), "descr:");
            cur.descr = trim_str(v.as_str());
        } else if starts_with_str(t.as_str(), "rotationrate:") {
            let v = after_exec(t.as_str(), "rotationrate:");
            cur.rotation_rate = trim_str(v.as_str());
        }
        i += 1;
    }
    assert(lv.take(i as int) =~= lv);
    flush_row_exec(&mut out, cur);
    out
}

/// A device name: 1 to 32 bytes of ASCII letters, digits, `_` and `-`.
pub open spec fn dev_name_ok(name: Seq<char>) -> bool {
    name.len() > 0 && crate::text::byte_len(name) <= 32 && crate::jails::chars_in(name, "_-"@)
}

pub fn validate_dev_name(name: &str) -> (r: crate::error::ApiResult<()>)
    ensures
        r is Ok <==> dev_name_ok(name@),
        !dev_name_ok(name@) ==> crate::error::is_bad_request(r, "invalid device name"@),
{
    if name.is_empty() || crate::text::bytes_exceed(name, 32) || !crate::jails::chars_in_exec(name, "_-") {
        return crate::error::bad_request("invalid device name");
    }
    Ok(())
}

} // verus!
