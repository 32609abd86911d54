//! Jails and their base systems.
use vstd::prelude::*;
use crate::error::{ApiError, ApiResult, ErrView, bad_request, err_view, is_bad_request, is_not_found};
use crate::jail_conf::ParsedJail;
use crate::smb::{last_value, prop_get};
use crate::text::{
    all_chars, byte_len, bytes_exceed, chars_of, contains_char, contains_str, contains_sub,
    ends_with, is_alnum, is_alnum_char, owned, push_str, replace_all, replace_str,
    starts_with, starts_with_str, str_eq, string_eq, string_from, strip_leading,
    strip_leading_str, trim,
};

verus! {

/// A running jail.
#[derive(Debug, Clone)]
pub struct JailRuntime {
    pub jid: i32,
    pub state: String,
    pub params: std::collections::HashMap<String, String>,
}

/// A jail as listed.
#[derive(Debug, Clone)]
pub struct JailInfo {
    pub name: String,
    pub jid: i32,
    pub hostname: String,
    pub path: String,
    pub ip4_addr: String,
    pub ip6_addr: String,
    pub auto_start: bool,
    pub params: Option<std::collections::HashMap<String, String>>,
    pub runtime: Option<JailRuntime>,
}

/// Whether to list running jails only.
#[derive(Debug, Clone)]
pub struct ListQuery {
    pub running: Option<String>,
}

/// A base system jails are made from.
#[derive(Debug, Clone)]
pub struct BaseSystem {
    pub name: String,
    pub type_: String,
    pub source_path: String,
    pub snapshots: Vec<String>,
    pub sharedfs_path: Option<String>,
    pub created_at: i64,
}

/// A base system as listed.
#[derive(Debug, Clone)]
pub struct BaseSystemInfo {
    pub base: BaseSystem,
}

/// A base system to import, extract or download.
#[derive(Debug, Clone)]
pub struct BaseImportBody {
    pub name: String,
    pub method: String,
    pub type_: String,
    pub source_path: Option<String>,
    pub snapshots: Option<Vec<String>>,
    pub sharedfs_path: Option<String>,
    pub txz_path: Option<String>,
    pub dataset: Option<String>,
    pub snapshot_name: Option<String>,
    pub template_path: Option<String>,
    pub download_url: Option<String>,
}

/// A name in a query string.
#[derive(Debug, Clone)]
pub struct NameQuery {
    pub name: String,
}

/// A download mirror.
#[derive(Debug, Clone)]
pub struct MirrorInfo {
    pub name: String,
    pub url: String,
}

/// New snapshot list of a base system.
#[derive(Debug, Clone)]
pub struct BaseUpdateBody {
    pub snapshots: Vec<String>,
}

/// A jail to create.
#[derive(Debug, Clone)]
pub struct JailCreateBody {
    pub name: String,
    pub hostname: Option<String>,
    pub location_type: String,
    pub path: Option<String>,
    pub base_name: Option<String>,
    pub snapshot: Option<String>,
    pub target_dataset: Option<String>,
    pub interface: Option<String>,
    pub ip4: Option<String>,
    pub ip6: Option<String>,
}

/// Whether deleting a jail removes its files.
#[derive(Debug, Clone)]
pub struct JailDeleteQuery {
    pub remove_files: String,
}

/// Parameters to set on a jail.
#[derive(Debug, Clone)]
pub struct JailUpdateBody {
    pub params: std::collections::HashMap<String, String>,
    pub auto_start: Option<bool>,
}

// ───────────────────────── validation ─────────────────────────

/// Letters, digits and the extra characters given.
pub open spec fn chars_in(s: Seq<char>, extra: Seq<char>) -> bool {
    all_chars(s, |c: char| is_alnum(c) || extra.contains(c))
}

pub fn chars_in_exec(s: &str, extra: &str) -> (b: bool)
    ensures
        b == chars_in(s@, extra@),
{
    let v = chars_of(s);
    let mut i: usize = 0;
    while i < v.len()
        invariant
            i <= v@.len(),
            v@ == s@,
            forall|k: int| 0 <= k < i ==> (is_alnum(#[trigger] v@[k]) || extra@.contains(v@[k])),
        decreases v@.len() - i,
    {
        if !(is_alnum_char(v[i]) || contains_char(extra, v[i])) {
            assert(!(is_alnum(s@[i as int]) || extra@.contains(s@[i as int])));
            return false;
        }
        i += 1;
    }
    assert(chars_in(s@, extra@));
    true
}

/// A jail name: 1 to 256 bytes of letters, digits, `_`, `.`, `-`.
pub open spec fn jail_name_ok(name: Seq<char>) -> bool {
    name.len() > 0 && byte_len(name) <= 256 && chars_in(name, "_.-"@)
}

pub fn validate_jail_name(name: &str) -> (r: ApiResult<()>)
    ensures
        r is Ok <==> jail_name_ok(name@),
        !jail_name_ok(name@) ==> is_bad_request(r, "invalid name"@),
{
    if name.is_empty() || bytes_exceed(name, 256) || !chars_in_exec(name, "_.-") {
        return bad_request("invalid name");
    }
    Ok(())
}

/// A source: an absolute path without `$`, backquote or backslash, or a
/// dataset name of letters, digits and `/ _ - . @ :` not starting with `.`.
pub open spec fn source_path_ok(p: Seq<char>) -> bool {
    &&& p.len() > 0 && !p.contains('\0') && !p.contains('\n')
    &&& if starts_with(p, "/"@) {
        !p.contains('$') && !p.contains('`') && !p.contains('\\')
    } else {
        chars_in(p, "/_-.@:"@) && !starts_with(p, "."@)
    }
}

pub fn validate_source_path(p: &str) -> (r: ApiResult<()>)
    ensures
        r is Ok <==> source_path_ok(p@),
        (p@.len() == 0 || p@.contains('\0') || p@.contains('\n')) ==> is_bad_request(
            r,
            "invalid path"@,
        ),
{
    if p.is_empty() || contains_char(p, '\0') || contains_char(p, '\n') {
        return bad_request("invalid path");
    }
    if starts_with_str(p, "/") {
        if contains_char(p, '$') || contains_char(p, '`') || contains_char(p, '\\') {
            return bad_request("path contains invalid characters");
        }
    } else {
        if !chars_in_exec(p, "/_-.@:") || starts_with_str(p, ".") {
            return bad_request("invalid ZFS dataset name");
        }
    }
    Ok(())
}

/// A target: absolute, without NUL or newline.
pub open spec fn target_path_ok(p: Seq<char>) -> bool {
    p.len() > 0 && starts_with(p, "/"@) && !p.contains('\0') && !p.contains('\n')
}

/// Why a target path is refused, if it is.
pub open spec fn target_path_error(p: Seq<char>) -> Option<Seq<char>> {
    if p.len() == 0 || !starts_with(p, "/"@) {
        Some("target path must be absolute"@)
    } else if p.contains('\0') || p.contains('\n') {
        Some("path contains invalid characters"@)
    } else {
        None
    }
}

pub fn validate_target_path(p: &str) -> (r: ApiResult<()>)
    ensures
        r is Ok <==> target_path_ok(p@),
        match target_path_error(p@) {
            None => r is Ok,
            Some(m) => is_bad_request(r, m),
        },
{
    if p.is_empty() || !starts_with_str(p, "/") {
        return bad_request("target path must be absolute");
    }
    if contains_char(p, '\0') || contains_char(p, '\n') {
        return bad_request("path contains invalid characters");
    }
    Ok(())
}

/// A snapshot name: 1 to 256 bytes of letters, digits, `_ - . :` and space.
pub open spec fn snapshot_name_ok(name: Seq<char>) -> bool {
    name.len() > 0 && byte_len(name) <= 256 && chars_in(name, "_-.: "@) && !name.contains('@')
}

pub fn validate_snapshot_name(name: &str) -> (r: ApiResult<()>)
    ensures
        r is Ok <==> snapshot_name_ok(name@),
        !snapshot_name_ok(name@) ==> is_bad_request(r, "invalid snapshot name"@),
{
    if name.is_empty() || bytes_exceed(name, 256) {
        return bad_request("invalid snapshot name");
    }
    if !chars_in_exec(name, "_-.: ") || contains_char(name, '@') {
        return bad_request("invalid snapshot name");
    }
    Ok(())
}

/// A download URL: `https://` or `http://`, no NUL, newline or space.
pub open spec fn url_ok(url: Seq<char>) -> bool {
    (starts_with(url, "https://"@) || starts_with(url, "http://"@)) && !url.contains('\0')
        && !url.contains('\n') && !url.contains(' ')
}

pub fn validate_url(url: &str) -> (r: ApiResult<()>)
    ensures
        r is Ok <==> url_ok(url@),
        !(starts_with(url@, "https://"@) || starts_with(url@, "http://"@)) ==> is_bad_request(
            r,
            "download URL must start with https:// or http://"@,
        ),
{
    if !(starts_with_str(url, "https://") || starts_with_str(url, "http://")) {
        return bad_request("download URL must start with https:// or http://");
    }
    if contains_char(url, '\0') || contains_char(url, '\n') || contains_char(url, ' ') {
        return bad_request("invalid download URL");
    }
    Ok(())
}

/// A dataset name: 1 to 256 bytes of letters, digits and `/ _ - . @ :`,
/// not starting with `.` and without `..`.
pub open spec fn zfs_name_ok(name: Seq<char>) -> bool {
    name.len() > 0 && byte_len(name) <= 256 && chars_in(name, "/_-.@:"@) && !starts_with(name, "."@)
        && !contains_sub(name, ".."@)
}

pub fn validate_zfs_name(name: &str) -> (r: ApiResult<()>)
    ensures
        r is Ok <==> zfs_name_ok(name@),
        !zfs_name_ok(name@) ==> is_bad_request(r, "invalid dataset name"@),
{
    if name.is_empty() || bytes_exceed(name, 256) {
        return bad_request("invalid dataset name");
    }
    if !chars_in_exec(name, "/_-.@:") || starts_with_str(name, ".") || contains_str(name, "..") {
        return bad_request("invalid dataset name");
    }
    Ok(())
}


// ───────────────────────── where a new jail lives ─────────────────────────

/// Index of the last `c` in `s`.
pub open spec fn rfind_char(s: Seq<char>, c: char) -> Option<int>
    decreases s.len(),
{
    if s.len() == 0 {
        None
    } else if s.last() == c {
        Some(s.len() - 1)
    } else {
        rfind_char(s.drop_last(), c)
    }
}

pub fn rfind_char_vec(v: &Vec<char>, c: char) -> (r: Option<usize>)
    ensures
        match r {
            Some(i) => rfind_char(v@, c) == Some(i as int) && i < v@.len(),
            None => rfind_char(v@, c) is None,
        },
{
    let mut j: usize = v.len();
    assert(v@.take(j as int) =~= v@);
    while j > 0
        invariant
            j <= v@.len(),
            rfind_char(v@.take(j as int), c) == rfind_char(v@, c),
        decreases j,
    {
        assert(v@.take(j as int).last() == v@[j - 1]);
        if v[j - 1] == c {
            return Some(j - 1);
        }
        assert(v@.take(j as int).drop_last() =~= v@.take(j - 1));
        j -= 1;
    }
    None
}

/// `a.join(b)` for a relative `b` without `/`.
pub open spec fn join_path(a: Seq<char>, b: Seq<char>) -> Seq<char> {
    if a.len() == 0 || ends_with(a, "/"@) {
        a + b
    } else {
        a + "/"@ + b
    }
}

fn join_path_exec(a: &str, b: &str) -> (r: String)
    ensures
        r@ == join_path(a@, b@),
{
    let mut out = owned(a);
    if !a.is_empty() && !crate::text::ends_with_str(a, "/") {
        push_str(&mut out, "/");
    }
    push_str(&mut out, b);
    out
}

/// The fstab file of a jail image: `<data dir>/jail-fstabs/<target with
/// every / turned into _, leading _ dropped>.fstab`.
pub open spec fn image_fstab(data_dir: Seq<char>, target: Seq<char>) -> Seq<char> {
    join_path(
        join_path(data_dir, "jail-fstabs"@),
        strip_leading(replace_all(target, "/"@, "_"@), '_') + ".fstab"@,
    )
}

pub fn image_fstab_path(data_dir: &str, target: &str) -> (r: String)
    ensures
        r@ == image_fstab(data_dir@, target@),
{
    proof {
        reveal_strlit("/");
    }
    let a = replace_str(target, "/", "_");
    let mut f = strip_leading_str(a.as_str(), '_');
    push_str(&mut f, ".fstab");
    let d = join_path_exec(data_dir, "jail-fstabs");
    join_path_exec(d.as_str(), f.as_str())
}

/// The fstab line that mounts the shared binaries read-only into an image.
pub open spec fn sharedfs_fstab_line(sharedfs: Seq<char>, target: Seq<char>) -> Seq<char> {
    sharedfs + "\t"@ + target + "/sharedfs\tnullfs\tro\t0\t0\n"@
}

/// Where a new jail goes and what has to be done there.
#[derive(Debug, Clone)]
pub enum LocationPlan {
    /// An existing or new directory.
    Directory { path: String },
    /// A clone of a registered snapshot, mounted at `mountpoint`
    /// (`mountpoint_arg` is the `zfs set` argument).
    ZfsClone { snapshot: String, dataset: String, mountpoint: String, mountpoint_arg: String },
    /// A copy of a template (`copy_source` is its `/.`), with the shared
    /// binaries mounted by the fstab file `fstab` holding `fstab_line`.
    SharedfsCopy {
        template: String,
        target: String,
        copy_source: String,
        fstab: String,
        fstab_line: String,
    },
}

/// A plan as contracts speak of it.
pub enum PlanView {
    Directory(Seq<char>),
    ZfsClone(Seq<char>, Seq<char>, Seq<char>),
    SharedfsCopy(Seq<char>, Seq<char>, Seq<char>, Seq<char>),
}

/// `p` carries out `v`: the derived strings are what `v` asks for.
pub open spec fn plan_is(p: LocationPlan, v: PlanView) -> bool {
    match p {
        LocationPlan::Directory { path } => v == PlanView::Directory(path@),
        LocationPlan::ZfsClone { snapshot, dataset, mountpoint, mountpoint_arg } => v
            == PlanView::ZfsClone(snapshot@, dataset@, mountpoint@) && mountpoint_arg@
            == "mountpoint="@ + mountpoint@,
        LocationPlan::SharedfsCopy { template, target, copy_source, fstab, fstab_line } => {
            &&& v matches PlanView::SharedfsCopy(t, g, sf, f)
            &&& t == template@ && g == target@ && f == fstab@
            &&& copy_source@ == template@ + "/."@
            &&& fstab_line@ == sharedfs_fstab_line(sf, target@)
        },
    }
}

/// First base with the given name.
pub open spec fn find_base(bases: Seq<BaseSystem>, name: Seq<char>) -> Option<int>
    decreases bases.len(),
{
    if bases.len() == 0 {
        None
    } else if bases[0].name@ == name {
        Some(0)
    } else {
        match find_base(bases.drop_first(), name) {
            Some(i) => Some(i + 1),
            None => None,
        }
    }
}

proof fn lemma_find_base(bases: Seq<BaseSystem>, name: Seq<char>, i: int)
    requires
        0 <= i <= bases.len(),
        forall|k: int| 0 <= k < i ==> bases[k].name@ != name,
        i == bases.len() || bases[i].name@ == name,
    ensures
        find_base(bases, name) == if i == bases.len() {
            None::<int>
        } else {
            Some(i)
        },
    decreases i,
{
    if i > 0 {
        let t = bases.drop_first();
        assert forall|k: int| 0 <= k < i - 1 implies t[k].name@ != name by {
            assert(t[k] == bases[k + 1]);
        }
        if i < bases.len() {
            assert(t[i - 1] == bases[i]);
        }
        lemma_find_base(t, name, i - 1);
    }
}

/// The dataset a ZFS jail gets by default: beside the base's dataset, or
/// under `zroot/jails`.
pub open spec fn default_dataset(source: Seq<char>, name: Seq<char>) -> Seq<char> {
    let parent = match rfind_char(source, '/') {
        Some(i) => source.take(i),
        None => "zroot/jails"@,
    };
    parent + "/"@ + name
}

pub open spec fn opt_or(o: Option<String>, d: Seq<char>) -> Seq<char> {
    match o {
        Some(s) => s@,
        None => d,
    }
}

/// What a base of the given kind makes of the request.
pub open spec fn base_plan(body: JailCreateBody, base: BaseSystem, data_dir: Seq<char>) -> Result<
    PlanView,
    ErrView,
> {
    let name = body.name@;
    let default_target = "/jails/"@ + name;
    if base.type_@ == "zfs"@ {
        match body.snapshot {
            None => Err(ErrView::BadRequest("snapshot is required for ZFS base"@)),
            Some(snap) => if !base.snapshots.deep_view().contains(snap@) {
                Err(
                    ErrView::BadRequest(
                        "snapshot \""@ + snap@ + "\" is not registered for base \""@ + base.name@
                            + "\""@,
                    ),
                )
            } else {
                let ds = opt_or(body.target_dataset, default_dataset(base.source_path@, name));
                let mp = opt_or(body.path, default_target);
                if !zfs_name_ok(ds) {
                    Err(ErrView::BadRequest("invalid dataset name"@))
                } else {
                    match target_path_error(mp) {
                        Some(m) => Err(ErrView::BadRequest(m)),
                        None => Ok(PlanView::ZfsClone(snap@, ds, mp)),
                    }
                }
            },
        }
    } else if base.type_@ == "sharedfs"@ {
        match base.sharedfs_path {
            None => Err(ErrView::Internal("sharedfs base missing sharedfs_path"@)),
            Some(sf) => {
                let t = opt_or(body.path, default_target);
                match target_path_error(t) {
                    Some(m) => Err(ErrView::BadRequest(m)),
                    None => Ok(
                        PlanView::SharedfsCopy(base.source_path@, t, sf@, image_fstab(data_dir, t)),
                    ),
                }
            },
        }
    } else {
        Err(ErrView::BadRequest("unknown base type: \""@ + base.type_@ + "\""@))
    }
}

/// Where a new jail goes, decided before anything is touched.
pub open spec fn location_plan(
    body: JailCreateBody,
    existing: Seq<ParsedJail>,
    bases: Seq<BaseSystem>,
    data_dir: Seq<char>,
) -> Result<PlanView, ErrView> {
    let name = body.name@;
    if !jail_name_ok(name) {
        Err(ErrView::BadRequest("invalid name"@))
    } else if exists|i: int| 0 <= i < existing.len() && #[trigger] existing[i].name@ == name {
        Err(ErrView::Conflict("jail \""@ + name + "\" already exists in jail.conf"@))
    } else if body.location_type@ == "directory"@ {
        match body.path {
            None => Err(ErrView::BadRequest("path is required"@)),
            Some(p) => match target_path_error(p@) {
                Some(m) => Err(ErrView::BadRequest(m)),
                None => Ok(PlanView::Directory(p@)),
            },
        }
    } else if body.location_type@ == "base"@ {
        match body.base_name {
            None => Err(ErrView::BadRequest("base_name is required for base location type"@)),
            Some(bn) => match find_base(bases, bn@) {
                None => Err(ErrView::NotFound("base system \""@ + bn@ + "\" not found"@)),
                Some(i) => base_plan(body, bases[i], data_dir),
            },
        }
    } else {
        Err(ErrView::BadRequest("unknown location_type: \""@ + body.location_type@ + "\""@))
    }
}

pub open spec fn plan_matches(r: ApiResult<LocationPlan>, want: Result<PlanView, ErrView>) -> bool {
    match r {
        Ok(p) => want matches Ok(v) && plan_is(p, v),
        Err(e) => want == Err::<PlanView, ErrView>(err_view(e)),
    }
}

fn quote_msg(a: &str, v: &str, b: &str) -> (r: String)
    ensures
        r@ == a@ + v@ + b@,
{
    let mut s = owned(a);
    push_str(&mut s, v);
    push_str(&mut s, b);
    s
}

fn default_dataset_exec(source: &str, name: &str) -> (r: String)
    ensures
        r@ == default_dataset(source@, name@),
{
    let v = chars_of(source);
    let mut out = match rfind_char_vec(&v, '/') {
        Some(i) => {
            assert(v@.subrange(0, i as int) =~= v@.take(i as int));
            string_from(&v, 0, i)
        },
        None => owned("zroot/jails"),
    };
    push_str(&mut out, "/");
    push_str(&mut out, name);
    out
}

fn plan_from_base(body: &JailCreateBody, base: &BaseSystem, data_dir: &str) -> (r: ApiResult<
    LocationPlan,
>)
    ensures
        plan_matches(r, base_plan(*body, *base, data_dir@)),
{
    let name = body.name.as_str();
    let default_target = quote_msg("/jails/", name, "");
    proof {
        reveal_strlit("");
    }
    assert(default_target@ =~= "/jails/"@ + name@);
    if str_eq(base.type_.as_str(), "zfs") {
        let snap = match &body.snapshot {
            None => {
                return Err(ApiError::BadRequest(owned("snapshot is required for ZFS base")));
            },
            Some(s) => s,
        };
        let mut registered = false;
        let mut i: usize = 0;
        while i < base.snapshots.len()
            invariant
                i <= base.snapshots@.len(),
                registered == exists|k: int| 0 <= k < i && base.snapshots@[k]@ == snap@,
            decreases base.snapshots@.len() - i,
        {
            if string_eq(&base.snapshots[i], snap) {
                registered = true;
            }
            i += 1;
        }
        proof {
            let dv = base.snapshots.deep_view();
            if registered {
                let k = choose|k: int| 0 <= k < i && base.snapshots@[k]@ == snap@;
                assert(dv[k] == snap@);
            } else {
                assert forall|k: int| 0 <= k < dv.len() implies dv[k] != snap@ by {
                    assert(dv[k] == base.snapshots@[k]@);
                }
            }
        }
        if !registered {
            let mut m = quote_msg("snapshot \"", snap.as_str(), "\" is not registered for base \"");
            push_str(&mut m, base.name.as_str());
            push_str(&mut m, "\"");
            return Err(ApiError::BadRequest(m));
        }
        let ds = match &body.target_dataset {
            Some(d) => d.clone(),
            None => default_dataset_exec(base.source_path.as_str(), name),
        };
        if validate_zfs_name(ds.as_str()).is_err() {
            return Err(ApiError::BadRequest(owned("invalid dataset name")));
        }
        let mp = match &body.path {
            Some(p) => p.clone(),
            None => default_target,
        };
        match validate_target_path(mp.as_str()) {
            Err(e) => Err(e),
            Ok(()) => {
                let arg = quote_msg("mountpoint=", mp.as_str(), "");
                Ok(
                    LocationPlan::ZfsClone {
                        snapshot: snap.clone(),
                        dataset: ds,
                        mountpoint: mp,
                        mountpoint_arg: arg,
                    },
                )
            },
        }
    } else if str_eq(base.type_.as_str(), "sharedfs") {
        let sf = match &base.sharedfs_path {
            None => {
                return Err(ApiError::Internal(owned("sharedfs base missing sharedfs_path")));
            },
            Some(x) => x,
        };
        let t = match &body.path {
            Some(p) => p.clone(),
            None => default_target,
        };
        match validate_target_path(t.as_str()) {
            Err(e) => Err(e),
            Ok(()) => {
                let fstab = image_fstab_path(data_dir, t.as_str());
                let mut line = quote_msg(sf.as_str(), "\t", t.as_str());
                push_str(&mut line, "/sharedfs\tnullfs\tro\t0\t0\n");
                let src = quote_msg(base.source_path.as_str(), "/.", "");
                Ok(
                    LocationPlan::SharedfsCopy {
                        template: base.source_path.clone(),
                        target: t,
                        copy_source: src,
                        fstab,
                        fstab_line: line,
                    },
                )
            },
        }
    } else {
        Err(ApiError::BadRequest(quote_msg("unknown base type: \"", base.type_.as_str(), "\"")))
    }
}

/// Checks a request for a new jail against the jails already in
/// `jail.conf` and the registered bases, and decides where it goes:
/// name valid and unused, location kind known, the fields that kind needs
/// present and valid. Nothing is created here.
pub fn plan_jail_location(
    body: &JailCreateBody,
    existing: &Vec<ParsedJail>,
    bases: &Vec<BaseSystem>,
    data_dir: &str,
) -> (r: ApiResult<LocationPlan>)
    ensures
        plan_matches(r, location_plan(*body, existing@, bases@, data_dir@)),
{
    let name = body.name.as_str();
    if validate_jail_name(name).is_err() {
        return Err(ApiError::BadRequest(owned("invalid name")));
    }
    let mut i: usize = 0;
    while i < existing.len()
        invariant
            i <= existing@.len(),
            name@ == body.name@,
            jail_name_ok(body.name@),
            forall|k: int| 0 <= k < i ==> existing@[k].name@ != name@,
        decreases existing@.len() - i,
    {
        if str_eq(existing[i].name.as_str(), name) {
            assert(existing@[i as int].name@ == name@);
            assert(exists|k: int| 0 <= k < existing@.len() && #[trigger] existing@[k].name@ == body.name@);
            return Err(
                ApiError::Conflict(quote_msg("jail \"", name, "\" already exists in jail.conf")),
            );
        }
        i += 1;
    }
    if str_eq(body.location_type.as_str(), "directory") {
        match &body.path {
            None => Err(ApiError::BadRequest(owned("path is required"))),
            Some(p) => match validate_target_path(p.as_str()) {
                Err(e) => Err(e),
                Ok(()) => Ok(LocationPlan::Directory { path: p.clone() }),
            },
        }
    } else if str_eq(body.location_type.as_str(), "base") {
        let bn = match &body.base_name {
            None => {
                return Err(
                    ApiError::BadRequest(owned("base_name is required for base location type")),
                );
            },
            Some(b) => b,
        };
        let mut j: usize = 0;
        while j < bases.len()
            invariant
                j <= bases@.len(),
                forall|k: int| 0 <= k < j ==> bases@[k].name@ != bn@,
                jail_name_ok(body.name@),
                forall|k: int| 0 <= k < existing@.len() ==> existing@[k].name@ != body.name@,
                body.location_type@ == "base"@,
                body.location_type@ != "directory"@,
                body.base_name == Some(*bn),
            decreases bases@.len() - j,
        {
            if string_eq(&bases[j].name, bn) {
                proof {
                    lemma_find_base(bases@, bn@, j as int);
                }
                return plan_from_base(body, &bases[j], data_dir);
            }
            j += 1;
        }
        proof {
            lemma_find_base(bases@, bn@, j as int);
        }
        Err(ApiError::NotFound(quote_msg("base system \"", bn.as_str(), "\" not found")))
    } else {
        Err(
            ApiError::BadRequest(
                quote_msg("unknown location_type: \"", body.location_type.as_str(), "\""),
            ),
        )
    }
}


// ───────────────────────── listing, deleting, auto-start ─────────────────────────

pub open spec fn or_empty(v: Option<Seq<char>>) -> Seq<char> {
    match v {
        Some(x) => x,
        None => seq![],
    }
}

/// The list entry of a `jail.conf` jail: hostname defaults to the name,
/// addresses to `ip4`/`ip6` and then to empty.
pub open spec fn info_matches(r: JailInfo, pj: ParsedJail, jid: i32, auto_start: bool) -> bool {
    let ps = pj.params.deep_view();
    &&& r.name@ == pj.name@
    &&& r.jid == jid
    &&& r.auto_start == auto_start
    &&& r.hostname@ == match last_value(ps, "host.hostname"@) {
        Some(h) => h,
        None => pj.name@,
    }
    &&& r.path@ == or_empty(last_value(ps, "path"@))
    &&& r.ip4_addr@ == match last_value(ps, "ip4.addr"@) {
        Some(a) => a,
        None => or_empty(last_value(ps, "ip4"@)),
    }
    &&& r.ip6_addr@ == match last_value(ps, "ip6.addr"@) {
        Some(a) => a,
        None => or_empty(last_value(ps, "ip6"@)),
    }
    &&& r.params is None
    &&& r.runtime is None
}

fn get_or(ps: &Vec<(String, String)>, key: &str, d: String) -> (r: String)
    ensures
        r@ == match last_value(ps.deep_view(), key@) {
            Some(v) => v,
            None => d@,
        },
{
    match prop_get(ps, key) {
        Some(v) => v,
        None => d,
    }
}

pub fn jail_info_of(pj: &ParsedJail, jid: i32, auto_start: bool) -> (r: JailInfo)
    ensures
        info_matches(r, *pj, jid, auto_start),
{
    let ps = &pj.params;
    let hostname = get_or(ps, "host.hostname", pj.name.clone());
    let path = get_or(ps, "path", String::new());
    let ip4 = get_or(ps, "ip4", String::new());
    let ip4_addr = get_or(ps, "ip4.addr", ip4);
    let ip6 = get_or(ps, "ip6", String::new());
    let ip6_addr = get_or(ps, "ip6.addr", ip6);
    JailInfo {
        name: pj.name.clone(),
        jid,
        hostname,
        path,
        ip4_addr,
        ip6_addr,
        auto_start,
        params: None,
        runtime: None,
    }
}

/// First jail with the given name.
pub open spec fn find_jail(js: Seq<ParsedJail>, name: Seq<char>) -> Option<int>
    decreases js.len(),
{
    if js.len() == 0 {
        None
    } else if js[0].name@ == name {
        Some(0)
    } else {
        match find_jail(js.drop_first(), name) {
            Some(i) => Some(i + 1),
            None => None,
        }
    }
}

proof fn lemma_find_jail(js: Seq<ParsedJail>, name: Seq<char>, i: int)
    requires
        0 <= i <= js.len(),
        forall|k: int| 0 <= k < i ==> js[k].name@ != name,
        i == js.len() || js[i].name@ == name,
    ensures
        find_jail(js, name) == if i == js.len() {
            None::<int>
        } else {
            Some(i)
        },
    decreases i,
{
    if i > 0 {
        let t = js.drop_first();
        assert forall|k: int| 0 <= k < i - 1 implies t[k].name@ != name by {
            assert(t[k] == js[k + 1]);
        }
        if i < js.len() {
            assert(t[i - 1] == js[i]);
        }
        lemma_find_jail(t, name, i - 1);
    }
}

pub open spec fn opt_seq(o: Option<String>) -> Option<Seq<char>> {
    match o {
        Some(s) => Some(s@),
        None => None,
    }
}

/// What deleting jail `name` may remove: its path (when set and not
/// empty) and its `mount.fstab` file, read from the first block of that
/// name.
pub open spec fn jail_files_spec(js: Seq<ParsedJail>, name: Seq<char>) -> (
    Option<Seq<char>>,
    Option<Seq<char>>,
) {
    match find_jail(js, name) {
        None => (None, None),
        Some(i) => {
            let ps = js[i].params.deep_view();
            (
                match last_value(ps, "path"@) {
                    Some(p) => if p.len() == 0 {
                        None
                    } else {
                        Some(p)
                    },
                    None => None,
                },
                last_value(ps, "mount.fstab"@),
            )
        },
    }
}

pub fn jail_files(entries: &Vec<ParsedJail>, name: &str) -> (r: (Option<String>, Option<String>))
    ensures
        (opt_seq(r.0), opt_seq(r.1)) == jail_files_spec(entries@, name@),
{
    let mut i: usize = 0;
    while i < entries.len()
        invariant
            i <= entries@.len(),
            forall|k: int| 0 <= k < i ==> entries@[k].name@ != name@,
        decreases entries@.len() - i,
    {
        if str_eq(entries[i].name.as_str(), name) {
            proof {
                lemma_find_jail(entries@, name@, i as int);
            }
            let path = match prop_get(&entries[i].params, "path") {
                Some(p) => if p.as_str().is_empty() {
                    None
                } else {
                    Some(p)
                },
                None => None,
            };
            let fstab = prop_get(&entries[i].params, "mount.fstab");
            return (path, fstab);
        }
        i += 1;
    }
    proof {
        lemma_find_jail(entries@, name@, i as int);
    }
    (None, None)
}

/// The dataset named by `zfs list -H -o name,mountpoint <path>` when its
/// mountpoint is exactly `path` (a dataset of its own, not a directory
/// inside a parent dataset).
pub open spec fn dedicated_dataset_spec(output: Seq<char>, path: Seq<char>) -> Option<Seq<char>> {
    let parts = crate::text::split_char(trim(output), '\t');
    if parts.len() >= 2 && parts[1] == path {
        Some(parts[0])
    } else {
        None
    }
}

pub fn dedicated_dataset(output: &str, path: &str) -> (r: Option<String>)
    ensures
        opt_seq(r) == dedicated_dataset_spec(output@, path@),
{
    let line = crate::text::trim_str(output);
    let parts = crate::text::split_str(line.as_str(), '\t');
    let ghost pv = parts.deep_view();
    if parts.len() >= 2 && str_eq(parts[1].as_str(), path) {
        assert(pv[1] == parts@[1]@);
        assert(pv[0] == parts@[0]@);
        Some(parts[0].clone())
    } else {
        proof {
            if pv.len() >= 2 {
                assert(pv[1] == parts@[1]@);
            }
        }
        None
    }
}

// ───────────────────────── deleting a jail's files ─────────────────────────

/// Where removing a deleted jail's files stands: what it waits to hear.
#[derive(Debug, Clone, Copy, PartialEq, Eq, Structural)]
pub enum DeleteStage {
    /// The `zfs list` of the jail's path.
    ZfsList,
    /// `zfs destroy -r` of its dataset.
    Destroy,
    /// Whether the path exists.
    PathExists,
    /// Removing the directory.
    RemoveDir,
    /// Whether the fstab file exists.
    FstabExists,
    /// Removing the fstab file.
    RemoveFstab,
    Done,
}

/// What the caller found out.
#[derive(Debug)]
pub enum DeleteEvent {
    /// What `zfs list -H -o name,mountpoint <path>` printed, `None` when it
    /// failed.
    Listed(Option<String>),
    /// Whether the removal asked for succeeded.
    Ran(bool),
    /// Whether the path asked about exists.
    Exists(bool),
}

/// What the caller does next.
#[derive(Debug)]
pub enum DeleteAction {
    /// Run `zfs list -H -o name,mountpoint <path>`.
    ListDataset(String),
    /// Run `zfs destroy -r <dataset>`.
    DestroyDataset(String),
    /// Test whether the path exists.
    CheckExists(String),
    /// Remove the directory and everything in it.
    RemoveDir(String),
    /// Remove the file.
    RemoveFile(String),
    /// Answer 204 No Content and audit the deletion with this detail; a
    /// removal that failed is left out of the detail, not reported.
    Finish(String),
}

/// Removing a deleted jail's files: its path and fstab file (as
/// `jail_files` reads them), the dataset found for the path, and the
/// audit detail so far.
#[derive(Debug)]
pub struct JailDeletion {
    pub path: Option<String>,
    pub fstab: Option<String>,
    pub dataset: Option<String>,
    pub stage: DeleteStage,
    pub detail: String,
}

/// Checking the fstab file, or finishing when there is none.
pub open spec fn fstab_phase(d: JailDeletion, r: (JailDeletion, DeleteAction)) -> bool {
    &&& r.0.detail@ == d.detail@ && r.0.path == d.path && r.0.fstab == d.fstab
    &&& match d.fstab {
        Some(f) => r.0.stage == DeleteStage::FstabExists && (r.1 matches DeleteAction::CheckExists(x)
            && x@ == f@),
        None => r.0.stage == DeleteStage::Done && (r.1 matches DeleteAction::Finish(m) && m@ == d.detail@),
    }
}

/// Listing the path's dataset, or going on to the fstab file when there
/// is no path.
pub open spec fn path_phase(d: JailDeletion, r: (JailDeletion, DeleteAction)) -> bool {
    match d.path {
        Some(p) => r.0.stage == DeleteStage::ZfsList && r.0.detail@ == d.detail@ && r.0.path == d.path
            && r.0.fstab == d.fstab && (r.1 matches DeleteAction::ListDataset(x) && x@ == p@),
        None => fstab_phase(d, r),
    }
}

fn to_fstab_phase(d: JailDeletion) -> (r: (JailDeletion, DeleteAction))
    ensures
        fstab_phase(d, r),
{
    match &d.fstab {
        Some(f) => {
            let x = f.clone();
            (JailDeletion { stage: DeleteStage::FstabExists, ..d }, DeleteAction::CheckExists(x))
        },
        None => {
            let m = d.detail.clone();
            (JailDeletion { stage: DeleteStage::Done, ..d }, DeleteAction::Finish(m))
        },
    }
}

fn to_path_phase(d: JailDeletion) -> (r: (JailDeletion, DeleteAction))
    ensures
        path_phase(d, r),
{
    match &d.path {
        Some(p) => {
            let x = p.clone();
            (JailDeletion { stage: DeleteStage::ZfsList, ..d }, DeleteAction::ListDataset(x))
        },
        None => to_fstab_phase(d),
    }
}

impl JailDeletion {
    /// After jail `name` has left `jail.conf`: unless `remove_files`, the
    /// deletion is done; else its files are removed, the path first.
    pub fn start(name: &str, path: Option<String>, fstab: Option<String>, remove_files: bool) -> (r: (
        JailDeletion,
        DeleteAction,
    ))
        ensures
            ({
                let d = JailDeletion {
                    path,
                    fstab,
                    dataset: None,
                    stage: DeleteStage::Done,
                    detail: r.0.detail,
                };
                &&& r.0.detail@ == "removed jail "@ + name@ + " from jail.conf"@
                &&& !remove_files ==> r.0.stage == DeleteStage::Done && (r.1 matches DeleteAction::Finish(m)
                    && m@ == r.0.detail@)
                &&& remove_files ==> path_phase(d, r)
            }),
    {
        let mut detail = owned("removed jail ");
        push_str(&mut detail, name);
        push_str(&mut detail, " from jail.conf");
        let d = JailDeletion { path, fstab, dataset: None, stage: DeleteStage::Done, detail };
        if !remove_files {
            let m = d.detail.clone();
            (d, DeleteAction::Finish(m))
        } else {
            to_path_phase(d)
        }
    }

    /// The next step once the caller reports `ev` for the current stage. A
    /// path that is a dataset of its own (its mountpoint is exactly the
    /// path) is destroyed; else an existing path is removed as a directory;
    /// then an existing fstab file is removed. A removal that succeeded is
    /// added to the detail; the fstab file is named once it exists, however
    /// its removal goes.
    pub fn step(self, ev: DeleteEvent) -> (r: (JailDeletion, DeleteAction))
        requires
            self.stage == DeleteStage::ZfsList ==> ev is Listed && self.path is Some,
            self.stage == DeleteStage::Destroy ==> ev is Ran && self.dataset is Some,
            self.stage == DeleteStage::PathExists ==> ev is Exists && self.path is Some,
            self.stage == DeleteStage::RemoveDir ==> ev is Ran && self.path is Some,
            self.stage == DeleteStage::FstabExists ==> ev is Exists && self.fstab is Some,
            self.stage == DeleteStage::RemoveFstab ==> ev is Ran,
            self.stage != DeleteStage::Done,
        ensures
            r.0.path == self.path && r.0.fstab == self.fstab,
            self.stage == DeleteStage::ZfsList ==> ({
                let p = self.path->Some_0;
                let ds = match ev {
                    DeleteEvent::Listed(Some(out)) => dedicated_dataset_spec(out@, p@),
                    _ => None,
                };
                match ds {
                    Some(dn) => r.0.stage == DeleteStage::Destroy && r.0.detail@ == self.detail@
                        && opt_seq(r.0.dataset) == Some(dn) && (r.1 matches DeleteAction::DestroyDataset(x)
                        && x@ == dn),
                    None => r.0.stage == DeleteStage::PathExists && r.0.detail@ == self.detail@ && (
                    r.1 matches DeleteAction::CheckExists(x) && x@ == p@),
                }
            }),
            self.stage == DeleteStage::Destroy ==> fstab_phase(
                JailDeletion {
                    detail: r.0.detail,
                    path: self.path,
                    fstab: self.fstab,
                    dataset: None,
                    stage: DeleteStage::Done,
                },
                r,
            ) && r.0.detail@ == self.detail@ + (if ev matches DeleteEvent::Ran(true) {
                ", destroyed dataset "@ + self.dataset->Some_0@
            } else {
                Seq::<char>::empty()
            }),
            self.stage == DeleteStage::PathExists ==> if ev matches DeleteEvent::Exists(true) {
                r.0.stage == DeleteStage::RemoveDir && r.0.detail@ == self.detail@ && (
                r.1 matches DeleteAction::RemoveDir(x) && x@ == self.path->Some_0@)
            } else {
                fstab_phase(self, r)
            },
            self.stage == DeleteStage::RemoveDir ==> fstab_phase(
                JailDeletion {
                    detail: r.0.detail,
                    path: self.path,
                    fstab: self.fstab,
                    dataset: None,
                    stage: DeleteStage::Done,
                },
                r,
            ) && r.0.detail@ == self.detail@ + (if ev matches DeleteEvent::Ran(true) {
                ", removed directory "@ + self.path->Some_0@
            } else {
                Seq::<char>::empty()
            }),
            self.stage == DeleteStage::FstabExists ==> if ev matches DeleteEvent::Exists(true) {
                r.0.stage == DeleteStage::RemoveFstab && r.0.detail@ == self.detail@ + ", removed fstab "@
                    + self.fstab->Some_0@ && (r.1 matches DeleteAction::RemoveFile(x) && x@
                    == self.fstab->Some_0@)
            } else {
                r.0.stage == DeleteStage::Done && (r.1 matches DeleteAction::Finish(m) && m@ == self.detail@)
            },
            self.stage == DeleteStage::RemoveFstab ==> r.0.stage == DeleteStage::Done && (
            r.1 matches DeleteAction::Finish(m) && m@ == self.detail@),
    {
        match self.stage {
            DeleteStage::ZfsList => {
                let ds = match (&ev, &self.path) {
                    (DeleteEvent::Listed(Some(out)), Some(p)) => dedicated_dataset(out.as_str(), p.as_str()),
                    _ => None,
                };
                match ds {
                    Some(dn) => {
                        let x = dn.clone();
                        (
                            JailDeletion { stage: DeleteStage::Destroy, dataset: Some(dn), ..self },
                            DeleteAction::DestroyDataset(x),
                        )
                    },
                    None => {
                        let x = match &self.path {
                            Some(p) => p.clone(),
                            None => String::new(),
                        };
                        (JailDeletion { stage: DeleteStage::PathExists, ..self }, DeleteAction::CheckExists(x))
                    },
                }
            },
            DeleteStage::Destroy => {
                let mut detail = self.detail;
                let ghost d0 = detail@;
                if matches!(ev, DeleteEvent::Ran(true)) {
                    push_str(&mut detail, ", destroyed dataset ");
                    match &self.dataset {
                        Some(dn) => push_str(&mut detail, dn.as_str()),
                        None => {},
                    }
                } else {
                    assert(detail@ =~= d0 + Seq::<char>::empty());
                }
                to_fstab_phase(
                    JailDeletion {
                        path: self.path,
                        fstab: self.fstab,
                        dataset: None,
                        stage: DeleteStage::Done,
                        detail,
                    },
                )
            },
            DeleteStage::PathExists => {
                if matches!(ev, DeleteEvent::Exists(true)) {
                    let x = match &self.path {
                        Some(p) => p.clone(),
                        None => String::new(),
                    };
                    (JailDeletion { stage: DeleteStage::RemoveDir, ..self }, DeleteAction::RemoveDir(x))
                } else {
                    to_fstab_phase(self)
                }
            },
            DeleteStage::RemoveDir => {
                let mut detail = self.detail;
                let ghost d0 = detail@;
                if matches!(ev, DeleteEvent::Ran(true)) {
                    push_str(&mut detail, ", removed directory ");
                    match &self.path {
                        Some(p) => push_str(&mut detail, p.as_str()),
                        None => {},
                    }
                } else {
                    assert(detail@ =~= d0 + Seq::<char>::empty());
                }
                to_fstab_phase(
                    JailDeletion {
                        path: self.path,
                        fstab: self.fstab,
                        dataset: None,
                        stage: DeleteStage::Done,
                        detail,
                    },
                )
            },
            DeleteStage::FstabExists => {
                if matches!(ev, DeleteEvent::Exists(true)) {
                    let mut detail = self.detail;
                    push_str(&mut detail, ", removed fstab ");
                    let x = match &self.fstab {
                        Some(f) => {
                            push_str(&mut detail, f.as_str());
                            f.clone()
                        },
                        None => String::new(),
                    };
                    (
                        JailDeletion {
                            path: self.path,
                            fstab: self.fstab,
                            dataset: self.dataset,
                            stage: DeleteStage::RemoveFstab,
                            detail,
                        },
                        DeleteAction::RemoveFile(x),
                    )
                } else {
                    let m = self.detail.clone();
                    (JailDeletion { stage: DeleteStage::Done, ..self }, DeleteAction::Finish(m))
                }
            },
            _ => {
                let m = self.detail.clone();
                (JailDeletion { stage: DeleteStage::Done, ..self }, DeleteAction::Finish(m))
            },
        }
    }
}

/// The new `jail_list` when auto-start of `name` is switched to `want`:
/// the name added at the end, or every copy of it taken out; `None` when
/// nothing changes.
pub open spec fn jail_list_change_spec(list: Seq<Seq<char>>, name: Seq<char>, want: bool) -> Option<
    Seq<Seq<char>>,
> {
    if want && !list.contains(name) {
        Some(list.push(name))
    } else if !want && list.contains(name) {
        Some(list.filter(|x: Seq<char>| x != name))
    } else {
        None
    }
}

pub open spec fn opt_list(o: Option<Vec<String>>) -> Option<Seq<Seq<char>>> {
    match o {
        Some(v) => Some(v.deep_view()),
        None => None,
    }
}

pub fn jail_list_change(list: &Vec<String>, name: &str, want: bool) -> (r: Option<Vec<String>>)
    ensures
        opt_list(r) == jail_list_change_spec(list.deep_view(), name@, want),
{
    let ghost lv = list.deep_view();
    let mut was_in = false;
    let mut kept: Vec<String> = Vec::new();
    let mut all: Vec<String> = Vec::new();
    let mut i: usize = 0;
    assert(lv.take(0).filter(|x: Seq<char>| x != name@) =~= Seq::<Seq<char>>::empty());
    while i < list.len()
        invariant
            i <= list@.len() == lv.len(),
            lv == list.deep_view(),
            was_in == lv.take(i as int).contains(name@),
            kept.deep_view() == lv.take(i as int).filter(|x: Seq<char>| x != name@),
            all.deep_view() == lv.take(i as int),
        decreases list@.len() - i,
    {
        let ghost k0 = kept.deep_view();
        let ghost a0 = all.deep_view();
        assert(lv[i as int] == list@[i as int]@);
        assert(lv.take(i + 1) =~= lv.take(i as int).push(lv[i as int]));
        proof {
            vstd::seq_lib::lemma_seq_contains_after_push(lv.take(i as int), lv[i as int], name@);
        }
        let same = str_eq(list[i].as_str(), name);
        if same {
            was_in = true;
        } else {
            kept.push(list[i].clone());
            assert(kept.deep_view() =~= k0.push(lv[i as int]));
        }
        all.push(list[i].clone());
        assert(all.deep_view() =~= a0.push(lv[i as int]));
        proof {
            assert(lv.take(i as int).push(lv[i as int]).filter(|x: Seq<char>| x != name@) == if lv[i as int] != name@ {
                lv.take(i as int).filter(|x: Seq<char>| x != name@).push(lv[i as int])
            } else {
                lv.take(i as int).filter(|x: Seq<char>| x != name@)
            }) by {
                lv.take(i as int).lemma_filter_push(lv[i as int], |x: Seq<char>| x != name@);
            }
        }
        i += 1;
    }
    assert(lv.take(i as int) =~= lv);
    if want && !was_in {
        let ghost a0 = all.deep_view();
        all.push(owned(name));
        assert(all.deep_view() =~= a0.push(name@));
        Some(all)
    } else if !want && was_in {
        Some(kept)
    } else {
        None
    }
}


// ───────────────────────── base systems ─────────────────────────

/// The download mirrors offered, as (label, URL).
pub open spec fn mirrors() -> Seq<(Seq<char>, Seq<char>)> {
    seq![
        ("Official (download.freebsd.org)"@, "https://download.freebsd.org"@),
        ("China (ftp.cn.freebsd.org)"@, "https://ftp.cn.freebsd.org"@),
        ("Japan (ftp.jp.freebsd.org)"@, "https://ftp.jp.freebsd.org"@),
        ("Taiwan (ftp.tw.freebsd.org)"@, "https://ftp.tw.freebsd.org"@),
        ("Germany (ftp.de.freebsd.org)"@, "https://ftp.de.freebsd.org"@),
        ("USA - NY (ftp.nyi.net)"@, "https://ftp.nyi.net"@),
    ]
}

fn mirror(name: &str, url: &str) -> (r: MirrorInfo)
    ensures
        r.name@ == name@ && r.url@ == url@,
{
    MirrorInfo { name: owned(name), url: owned(url) }
}

pub fn mirror_list() -> (r: Vec<MirrorInfo>)
    ensures
        r@.len() == mirrors().len(),
        forall|i: int| 0 <= i < r@.len() ==> (#[trigger] r@[i].name@, r@[i].url@) == mirrors()[i],
{
    let mut v: Vec<MirrorInfo> = Vec::new();
    v.push(mirror("Official (download.freebsd.org)", "https://download.freebsd.org"));
    v.push(mirror("China (ftp.cn.freebsd.org)", "https://ftp.cn.freebsd.org"));
    v.push(mirror("Japan (ftp.jp.freebsd.org)", "https://ftp.jp.freebsd.org"));
    v.push(mirror("Taiwan (ftp.tw.freebsd.org)", "https://ftp.tw.freebsd.org"));
    v.push(mirror("Germany (ftp.de.freebsd.org)", "https://ftp.de.freebsd.org"));
    v.push(mirror("USA - NY (ftp.nyi.net)", "https://ftp.nyi.net"));
    v
}

/// The snapshot names listed by `zfs list -t snapshot -H -o name`: lines
/// trimmed, empty ones dropped.
pub open spec fn snapshot_list(output: Seq<char>) -> Seq<Seq<char>> {
    crate::text::lines(output).map_values(|l: Seq<char>| trim(l)).filter(|l: Seq<char>| l.len() > 0)
}

pub fn parse_snapshot_list(output: &str) -> (r: Vec<String>)
    ensures
        r.deep_view() == snapshot_list(output@),
{
    let ls = crate::text::split_lines(output);
    let ghost lv = ls.deep_view();
    let ghost tv = lv.map_values(|l: Seq<char>| trim(l));
    let mut out: Vec<String> = Vec::new();
    let mut i: usize = 0;
    assert(tv.take(0).filter(|l: Seq<char>| l.len() > 0) =~= Seq::<Seq<char>>::empty());
    while i < ls.len()
        invariant
            i <= ls@.len() == lv.len() == tv.len(),
            lv == ls.deep_view(),
            tv == lv.map_values(|l: Seq<char>| trim(l)),
            out.deep_view() == tv.take(i as int).filter(|l: Seq<char>| l.len() > 0),
        decreases ls@.len() - i,
    {
        let t = crate::text::trim_str(ls[i].as_str());
        assert(t@ == tv[i as int]);
        assert(tv.take(i + 1) =~= tv.take(i as int).push(tv[i as int]));
        proof {
            tv.take(i as int).lemma_filter_push(tv[i as int], |l: Seq<char>| l.len() > 0);
        }
        if !t.as_str().is_empty() {
            let ghost before = out.deep_view();
            out.push(t);
            assert(out.deep_view() =~= before.push(tv[i as int]));
        }
        i += 1;
    }
    assert(tv.take(i as int) =~= tv);
    proof {
        assert(tv == crate::text::lines(output@).map_values(|l: Seq<char>| trim(l)));
    }
    out
}

/// The first requested snapshot that the dataset does not have.
pub open spec fn first_missing(snaps: Seq<Seq<char>>, available: Seq<Seq<char>>) -> Option<int>
    decreases snaps.len(),
{
    if snaps.len() == 0 {
        None
    } else {
        match first_missing(snaps.drop_last(), available) {
            Some(i) => Some(i),
            None => if available.contains(snaps.last()) {
                None
            } else {
                Some(snaps.len() - 1)
            },
        }
    }
}

fn contains_string(v: &Vec<String>, x: &String) -> (b: bool)
    ensures
        b == v.deep_view().contains(x@),
{
    let ghost dv = v.deep_view();
    let mut i: usize = 0;
    while i < v.len()
        invariant
            i <= v@.len() == dv.len(),
            dv == v.deep_view(),
            forall|k: int| 0 <= k < i ==> dv[k] != x@,
        decreases v@.len() - i,
    {
        assert(dv[i as int] == v@[i as int]@);
        if string_eq(&v[i], x) {
            return true;
        }
        i += 1;
    }
    false
}

/// Every requested snapshot must exist on the dataset; the first one that
/// does not is named in the error.
pub fn validate_zfs_snapshots(dataset: &str, snaps: &Vec<String>, available: &Vec<String>) -> (r:
    ApiResult<()>)
    ensures
        match first_missing(snaps.deep_view(), available.deep_view()) {
            None => r is Ok,
            Some(i) => is_bad_request(
                r,
                "snapshot \""@ + snaps.deep_view()[i] + "\" not found on dataset \""@ + dataset@
                    + "\""@,
            ),
        },
{
    let ghost sv = snaps.deep_view();
    let mut i: usize = 0;
    assert(sv.take(0) =~= Seq::<Seq<char>>::empty());
    while i < snaps.len()
        invariant
            i <= snaps@.len() == sv.len(),
            sv == snaps.deep_view(),
            first_missing(sv.take(i as int), available.deep_view()) is None,
        decreases snaps@.len() - i,
    {
        assert(sv.take(i + 1).drop_last() =~= sv.take(i as int));
        assert(sv[i as int] == snaps@[i as int]@);
        if !contains_string(available, &snaps[i]) {
            proof {
                lemma_first_missing_prefix(sv, available.deep_view(), i + 1, i as int);
            }
            let mut m = quote_msg("snapshot \"", snaps[i].as_str(), "\" not found on dataset \"");
            push_str(&mut m, dataset);
            push_str(&mut m, "\"");
            return Err(ApiError::BadRequest(m));
        }
        i += 1;
    }
    assert(sv.take(i as int) =~= sv);
    Ok(())
}

proof fn lemma_first_missing_prefix(s: Seq<Seq<char>>, available: Seq<Seq<char>>, n: int, m: int)
    requires
        0 < n <= s.len(),
        first_missing(s.take(n), available) == Some(m),
    ensures
        first_missing(s, available) == Some(m),
    decreases s.len() - n,
{
    if n < s.len() {
        assert(s.take(n + 1).drop_last() =~= s.take(n));
        lemma_first_missing_prefix(s, available, n + 1, m);
    } else {
        assert(s.take(n) =~= s);
    }
}

/// How a new base system is made.
#[derive(Debug, Clone, Copy, PartialEq, Eq)]
pub enum BaseMethod {
    Import,
    FromTxz,
    Download,
}

/// The checks made before a base system is created: a valid, unused name
/// and a known method (empty means `import`).
pub open spec fn base_import_check(body: BaseImportBody, bases: Seq<BaseSystem>) -> Result<
    BaseMethod,
    ErrView,
> {
    let m = body.method@;
    if !jail_name_ok(body.name@) {
        Err(ErrView::BadRequest("invalid name"@))
    } else if find_base(bases, body.name@) is Some {
        Err(ErrView::Conflict("base system \""@ + body.name@ + "\" already exists"@))
    } else if m.len() == 0 || m == "import"@ {
        Ok(BaseMethod::Import)
    } else if m == "from-txz"@ {
        Ok(BaseMethod::FromTxz)
    } else if m == "download"@ {
        Ok(BaseMethod::Download)
    } else {
        Err(ErrView::BadRequest("unknown creation method: \""@ + m + "\""@))
    }
}

fn base_index(bases: &Vec<BaseSystem>, name: &str) -> (r: Option<usize>)
    ensures
        match r {
            Some(i) => find_base(bases@, name@) == Some(i as int) && i < bases@.len(),
            None => find_base(bases@, name@) is None,
        },
{
    let mut j: usize = 0;
    while j < bases.len()
        invariant
            j <= bases@.len(),
            forall|k: int| 0 <= k < j ==> bases@[k].name@ != name@,
        decreases bases@.len() - j,
    {
        if str_eq(bases[j].name.as_str(), name) {
            proof {
                lemma_find_base(bases@, name@, j as int);
            }
            return Some(j);
        }
        j += 1;
    }
    proof {
        lemma_find_base(bases@, name@, j as int);
    }
    None
}

pub fn check_base_import(body: &BaseImportBody, bases: &Vec<BaseSystem>) -> (r: ApiResult<
    BaseMethod,
>)
    ensures
        match r {
            Ok(m) => base_import_check(*body, bases@) == Ok::<BaseMethod, ErrView>(m),
            Err(e) => base_import_check(*body, bases@) == Err::<BaseMethod, ErrView>(err_view(e)),
        },
{
    if validate_jail_name(body.name.as_str()).is_err() {
        return Err(ApiError::BadRequest(owned("invalid name")));
    }
    if base_index(bases, body.name.as_str()).is_some() {
        return Err(
            ApiError::Conflict(quote_msg("base system \"", body.name.as_str(), "\" already exists")),
        );
    }
    let m = body.method.as_str();
    if m.is_empty() || str_eq(m, "import") {
        Ok(BaseMethod::Import)
    } else if str_eq(m, "from-txz") {
        Ok(BaseMethod::FromTxz)
    } else if str_eq(m, "download") {
        Ok(BaseMethod::Download)
    } else {
        Err(ApiError::BadRequest(quote_msg("unknown creation method: \"", m, "\"")))
    }
}

/// Takes every base named `name` off the list; `NotFound` (list unchanged)
/// when there is none.
pub fn remove_base(bases: &mut Vec<BaseSystem>, name: &str) -> (r: ApiResult<()>)
    ensures
        final(bases)@ == old(bases)@.filter(|b: BaseSystem| b.name@ != name@),
        r is Ok <==> find_base(old(bases)@, name@) is Some,
        r is Err ==> is_not_found(r, "base system \""@ + name@ + "\" not found"@),
{
    let ghost old_v = bases@;
    let ghost keep = |b: BaseSystem| b.name@ != name@;
    let mut i: usize = 0;
    let ghost mut j: int = 0;
    let mut removed = false;
    assert(old_v.take(0).filter(keep) =~= Seq::<BaseSystem>::empty());
    assert(old_v.skip(0) =~= old_v);
    while i < bases.len()
        invariant
            0 <= j <= old_v.len(),
            bases@ == old_v.take(j).filter(keep) + old_v.skip(j),
            i == old_v.take(j).filter(keep).len(),
            removed == (exists|k: int| 0 <= k < j && old_v[k].name@ == name@),
            keep == (|b: BaseSystem| b.name@ != name@),
        decreases bases@.len() - i,
    {
        assert(bases@[i as int] == old_v[j]);
        assert(old_v.take(j + 1) =~= old_v.take(j).push(old_v[j]));
        proof {
            old_v.take(j).lemma_filter_push(old_v[j], keep);
        }
        if str_eq(bases[i].name.as_str(), name) {
            let ghost b0 = bases@;
            let _gone = bases.remove(i);
            assert(bases@ =~= old_v.take(j + 1).filter(keep) + old_v.skip(j + 1));
            removed = true;
        } else {
            assert(bases@ =~= old_v.take(j + 1).filter(keep) + old_v.skip(j + 1));
            i += 1;
        }
        proof {
            j = j + 1;
        }
    }
    proof {
        assert(j == old_v.len()) by {
            if j < old_v.len() {
                assert(bases@.len() > i);
            }
        }
        assert(old_v.take(j) =~= old_v);
        assert(old_v.skip(j) =~= Seq::<BaseSystem>::empty());
        assert(bases@ =~= old_v.filter(keep));
        if removed {
            let k = choose|k: int| 0 <= k < j && old_v[k].name@ == name@;
            lemma_find_base_some(old_v, name@, k);
        } else {
            lemma_find_base(old_v, name@, old_v.len() as int);
        }
    }
    if !removed {
        return Err(ApiError::NotFound(quote_msg("base system \"", name, "\" not found")));
    }
    Ok(())
}

proof fn lemma_find_base_some(bases: Seq<BaseSystem>, name: Seq<char>, k: int)
    requires
        0 <= k < bases.len(),
        bases[k].name@ == name,
    ensures
        find_base(bases, name) is Some,
    decreases k,
{
    if bases[0].name@ != name {
        let t = bases.drop_first();
        assert(t[k - 1] == bases[k]);
        lemma_find_base_some(t, name, k - 1);
    }
}

fn copy_strings(v: &Vec<String>) -> (r: Vec<String>)
    ensures
        r.deep_view() == v.deep_view(),
{
    let ghost dv = v.deep_view();
    let mut out: Vec<String> = Vec::new();
    let mut i: usize = 0;
    while i < v.len()
        invariant
            i <= v@.len() == dv.len(),
            dv == v.deep_view(),
            out.deep_view() == dv.take(i as int),
        decreases v@.len() - i,
    {
        let ghost before = out.deep_view();
        out.push(v[i].clone());
        assert(out.deep_view() =~= before.push(dv[i as int]));
        assert(dv.take(i + 1) =~= dv.take(i as int).push(dv[i as int]));
        i += 1;
    }
    assert(dv.take(i as int) =~= dv);
    out
}

/// The fields of two base systems agree.
pub open spec fn same_base(a: BaseSystem, b: BaseSystem) -> bool {
    &&& a.name@ == b.name@
    &&& a.type_@ == b.type_@
    &&& a.source_path@ == b.source_path@
    &&& a.snapshots.deep_view() == b.snapshots.deep_view()
    &&& opt_seq(a.sharedfs_path) == opt_seq(b.sharedfs_path)
    &&& a.created_at == b.created_at
}

/// Sets the registered snapshots of ZFS base `name`, each of which must
/// exist on its dataset (`available` lists them), and gives back the
/// updated base.
pub fn update_base_snapshots(
    bases: &mut Vec<BaseSystem>,
    name: &str,
    snapshots: &Vec<String>,
    available: &Vec<String>,
) -> (r: ApiResult<BaseSystem>)
    ensures
        match find_base(old(bases)@, name@) {
            None => is_not_found(r, "base system \""@ + name@ + "\" not found"@) && final(bases)@
                == old(bases)@,
            Some(i) => {
                let b = old(bases)@[i];
                if b.type_@ != "zfs"@ {
                    is_bad_request(r, "snapshot update is only supported for ZFS base systems"@)
                        && final(bases)@ == old(bases)@
                } else if snapshots@.len() == 0 {
                    is_bad_request(r, "at least one snapshot is required"@) && final(bases)@
                        == old(bases)@
                } else if first_missing(snapshots.deep_view(), available.deep_view()) is Some {
                    r is Err && final(bases)@ == old(bases)@
                } else {
                    &&& r matches Ok(u) && same_base(u, final(bases)@[i])
                    &&& final(bases)@.len() == old(bases)@.len()
                    &&& forall|k: int|
                        0 <= k < old(bases)@.len() && k != i ==> final(bases)@[k] == old(bases)@[k]
                    &&& final(bases)@[i].snapshots.deep_view() == snapshots.deep_view()
                    &&& final(bases)@[i].name == b.name && final(bases)@[i].type_ == b.type_
                    &&& final(bases)@[i].source_path == b.source_path
                    &&& final(bases)@[i].sharedfs_path == b.sharedfs_path
                    &&& final(bases)@[i].created_at == b.created_at
                }
            },
        },
{
    let i = match base_index(bases, name) {
        None => {
            return Err(ApiError::NotFound(quote_msg("base system \"", name, "\" not found")));
        },
        Some(i) => i,
    };
    if !str_eq(bases[i].type_.as_str(), "zfs") {
        return Err(
            ApiError::BadRequest(owned("snapshot update is only supported for ZFS base systems")),
        );
    }
    if snapshots.len() == 0 {
        return Err(ApiError::BadRequest(owned("at least one snapshot is required")));
    }
    match validate_zfs_snapshots(bases[i].source_path.as_str(), snapshots, available) {
        Err(e) => {
            return Err(e);
        },
        Ok(()) => {},
    }
    let mut b = bases.remove(i);
    b.snapshots = copy_strings(snapshots);
    bases.insert(i, b);
    let cur = &bases[i];
    let sharedfs_path = match &cur.sharedfs_path {
        Some(p) => Some(p.clone()),
        None => None,
    };
    let updated = BaseSystem {
        name: cur.name.clone(),
        type_: cur.type_.clone(),
        source_path: cur.source_path.clone(),
        snapshots: copy_strings(&cur.snapshots),
        sharedfs_path,
        created_at: cur.created_at,
    };
    Ok(updated)
}

/// After auto-start of `name` is switched to `want`, the `jail_list`
/// names the jail exactly when `want` holds, whether or not it changed.
pub proof fn lemma_auto_start_switch(list: Seq<Seq<char>>, name: Seq<char>, want: bool)
    ensures
        match jail_list_change_spec(list, name, want) {
            Some(l) => l.contains(name) == want,
            None => list.contains(name) == want,
        },
{
    if want && !list.contains(name) {
        assert(list.push(name)[list.len() as int] == name);
    } else if !want && list.contains(name) {
        let l = list.filter(|x: Seq<char>| x != name);
        if l.contains(name) {
            let k = choose|k: int| 0 <= k < l.len() && l[k] == name;
            list.lemma_filter_pred(|x: Seq<char>| x != name, k);
        }
    }
}

} // verus!
