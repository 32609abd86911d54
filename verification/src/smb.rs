//! Samba: its status, the shape of `smb4.conf` and the checks on what an
//! administrator may put into it.
use vstd::prelude::*;
use crate::error::{ApiError, ApiResult, bad_request, is_bad_request};
use crate::num::{dec, parse_unsigned, parse_unsigned_str, push_dec};
use crate::pattern::{regex_match, regex_is_match};
use crate::rcvars::RcVars;
use crate::text::{
    contains_char, eq_ignore_case, eq_ignore_case_str, owned, push_str, split_lines, split_ws,
    starts_with, starts_with_str, str_eq, string_eq, words,
};

verus! {

/// What the status endpoint reports.
#[derive(Debug, Clone)]
pub struct SmbStatus {
    pub installed: bool,
    pub enabled: bool,
    pub initialized: bool,
    pub service_running: bool,
    pub version: Option<String>,
}

/// The `[global]` settings the panel manages.
#[derive(Debug, Clone)]
pub struct GlobalConfig {
    pub workgroup: String,
    pub server_string: String,
    pub server_role: String,
    pub map_to_guest: String,
    pub passdb_backend: String,
    pub server_min_protocol: String,
    pub dns_proxy: String,
    pub load_printers: String,
    pub log_level: u8,
    pub fruit_enabled: bool,
}

/// One share section.
#[derive(Debug, Clone)]
pub struct SmbShare {
    pub name: String,
    pub comment: String,
    pub path: String,
    pub browseable: bool,
    pub writable: bool,
    pub guest_ok: bool,
    pub valid_users: Vec<String>,
    pub create_mask: String,
    pub directory_mask: String,
    pub time_machine: bool,
    pub time_machine_max_size: String,
}

/// The whole configuration file.
#[derive(Debug, Clone)]
pub struct SmbConfig {
    pub global: GlobalConfig,
    pub shares: Vec<SmbShare>,
}

/// A share to create.
#[derive(Debug, Clone)]
pub struct CreateShareReq {
    pub name: String,
    pub comment: String,
    pub path: String,
    pub browseable: bool,
    pub writable: bool,
    pub guest_ok: bool,
    pub valid_users: Vec<String>,
    pub create_mask: String,
    pub directory_mask: String,
    pub time_machine: bool,
    pub time_machine_max_size: String,
}

/// A Samba account.
#[derive(Debug, Clone)]
pub struct SmbUser {
    pub username: String,
    pub uid: u32,
}

/// A system account that could be given Samba access.
#[derive(Debug, Clone)]
pub struct SysUser {
    pub username: String,
    pub uid: u32,
    pub gecos: String,
}

/// A Samba account to create.
#[derive(Debug, Clone)]
pub struct CreateUserReq {
    pub username: String,
    pub password: String,
}

/// A new Samba password.
#[derive(Debug, Clone)]
pub struct ChangePasswordReq {
    pub password: String,
}

/// The (empty) body of a service action.
#[derive(Debug, Clone)]
pub struct ServiceActionReq {}

// ───────────────────────── defaults ─────────────────────────

pub fn default_workgroup() -> (r: String)
    ensures
        r@ == "WORKGROUP"@,
{
    owned("WORKGROUP")
}

pub fn default_server_string() -> (r: String)
    ensures
        r@ == "FreeBSD Samba Server"@,
{
    owned("FreeBSD Samba Server")
}

pub fn default_server_role() -> (r: String)
    ensures
        r@ == "standalone"@,
{
    owned("standalone")
}

pub fn default_map_to_guest() -> (r: String)
    ensures
        r@ == "Bad User"@,
{
    owned("Bad User")
}

pub fn default_passdb_backend() -> (r: String)
    ensures
        r@ == "tdbsam"@,
{
    owned("tdbsam")
}

pub fn default_server_min_protocol() -> (r: String)
    ensures
        r@ == "SMB2"@,
{
    owned("SMB2")
}

pub fn default_dns_proxy() -> (r: String)
    ensures
        r@ == "no"@,
{
    owned("no")
}

pub fn default_load_printers() -> (r: String)
    ensures
        r@ == "no"@,
{
    owned("no")
}

pub fn default_log_level() -> (r: u8)
    ensures
        r == 1,
{
    1
}

pub fn default_true() -> (r: bool)
    ensures
        r,
{
    true
}

pub fn default_create_mask() -> (r: String)
    ensures
        r@ == "0664"@,
{
    owned("0664")
}

pub fn default_directory_mask() -> (r: String)
    ensures
        r@ == "0775"@,
{
    owned("0775")
}

/// The global settings of a fresh configuration.
pub open spec fn is_default_global(g: GlobalConfig) -> bool {
    &&& g.workgroup@ == "WORKGROUP"@
    &&& g.server_string@ == "FreeBSD Samba Server"@
    &&& g.server_role@ == "standalone"@
    &&& g.map_to_guest@ == "Bad User"@
    &&& g.passdb_backend@ == "tdbsam"@
    &&& g.server_min_protocol@ == "SMB2"@
    &&& g.dns_proxy@ == "no"@
    &&& g.load_printers@ == "no"@
    &&& g.log_level == 1
    &&& !g.fruit_enabled
}

impl Default for GlobalConfig {
    fn default() -> (g: Self)
        ensures
            is_default_global(g),
    {
        GlobalConfig {
            workgroup: default_workgroup(),
            server_string: default_server_string(),
            server_role: default_server_role(),
            map_to_guest: default_map_to_guest(),
            passdb_backend: default_passdb_backend(),
            server_min_protocol: default_server_min_protocol(),
            dns_proxy: default_dns_proxy(),
            load_printers: default_load_printers(),
            log_level: default_log_level(),
            fruit_enabled: false,
        }
    }
}

// ───────────────────────── status ─────────────────────────

/// The version word in `smbd --version` output: the first word that is not
/// `version` (ignoring ASCII case).
pub open spec fn first_non_keyword(ws: Seq<Seq<char>>, kw: Seq<char>) -> Option<Seq<char>>
    decreases ws.len(),
{
    if ws.len() == 0 {
        None
    } else if eq_ignore_case(ws[0], kw) {
        first_non_keyword(ws.drop_first(), kw)
    } else {
        Some(ws[0])
    }
}

/// `s.trim_end_matches(',')`.
pub open spec fn trim_end_commas(s: Seq<char>) -> Seq<char>
    decreases s.len(),
{
    if s.len() > 0 && s.last() == ',' {
        trim_end_commas(s.drop_last())
    } else {
        s
    }
}

/// The version shown for `smbd --version` output.
pub open spec fn smbd_version(out: Seq<char>) -> Option<Seq<char>> {
    match first_non_keyword(words(out), "version"@) {
        Some(w) => Some(trim_end_commas(w)),
        None => None,
    }
}

fn trim_end_commas_str(s: &String) -> (r: String)
    ensures
        r@ == trim_end_commas(s@),
{
    let v = crate::text::chars_of(s.as_str());
    let mut n = v.len();
    assert(v@.take(n as int) =~= v@);
    while n > 0 && v[n - 1] == ','
        invariant
            n <= v@.len(),
            trim_end_commas(v@.take(n as int)) == trim_end_commas(v@),
        decreases n,
    {
        assert(v@.take(n as int).drop_last() =~= v@.take(n - 1));
        n -= 1;
    }
    crate::text::string_from(&v, 0, n)
}

fn first_non_keyword_vec(ws: &Vec<String>, kw: &str) -> (r: Option<String>)
    ensures
        match r {
            Some(w) => first_non_keyword(ws.deep_view(), kw@) == Some(w@),
            None => first_non_keyword(ws.deep_view(), kw@) is None,
        },
{
    let ghost dv = ws.deep_view();
    let mut i: usize = 0;
    assert(dv.skip(0) =~= dv);
    while i < ws.len()
        invariant
            i <= ws@.len() == dv.len(),
            dv == ws.deep_view(),
            first_non_keyword(dv.skip(i as int), kw@) == first_non_keyword(dv, kw@),
        decreases ws@.len() - i,
    {
        assert(dv.skip(i as int)[0] == dv[i as int]);
        assert(dv[i as int] == ws@[i as int]@);
        if !eq_ignore_case_str(ws[i].as_str(), kw) {
            return Some(ws[i].clone());
        }
        assert(dv.skip(i as int).drop_first() =~= dv.skip(i + 1));
        i += 1;
    }
    None
}

/// Status of the Samba install. What the caller reads from the system is
/// handed in: whether `smbd` and `smb4.conf` exist, rc.conf, whether both
/// daemons run (asked only when Samba is installed), and the output of
/// `smbd --version`.
pub fn check_status(
    installed: bool,
    rc: &RcVars,
    initialized: bool,
    running: bool,
    version_output: Option<&str>,
) -> (st: SmbStatus)
    ensures
        st.installed == installed,
        st.enabled == (rc.lookup("samba_server_enable"@) == Some("YES"@)),
        st.initialized == initialized,
        st.service_running == (installed && running),
        !installed ==> st.version is None,
        installed ==> match version_output {
            None => st.version is None,
            Some(out) => match smbd_version(out@) {
                Some(v) => (st.version matches Some(x) && x@ == v),
                None => st.version is None,
            },
        },
{
    let key = owned("samba_server_enable");
    let enabled = match rc.get(&key) {
        Some(v) => str_eq(v.as_str(), "YES"),
        None => false,
    };
    let version = if !installed {
        None
    } else {
        match version_output {
            None => None,
            Some(out) => {
                let ws = split_ws(out);
                match first_non_keyword_vec(&ws, "version") {
                    Some(w) => Some(trim_end_commas_str(&w)),
                    None => None,
                }
            },
        }
    };
    SmbStatus { installed, enabled, initialized, service_running: installed && running, version }
}

/// Share and user management needs an installed and initialised Samba.
pub fn ensure_initialized(st: &SmbStatus) -> (r: ApiResult<()>)
    ensures
        r is Ok <==> (st.installed && st.initialized),
        !(st.installed && st.initialized) ==> is_bad_request(r, "Samba not initialized"@),
{
    if !st.installed || !st.initialized {
        return bad_request("Samba not initialized");
    }
    Ok(())
}

// ───────────────────────── validation ─────────────────────────

pub open spec fn share_name_ok(name: Seq<char>) -> bool {
    regex_match(r"^[a-zA-Z0-9_.$-]{1,64}$"@, name) == Some(true)
}

pub fn validate_share_name(name: &str) -> (r: ApiResult<()>)
    ensures
        r is Ok <==> share_name_ok(name@),
        regex_match(r"^[a-zA-Z0-9_.$-]{1,64}$"@, name@) == Some(false) ==> is_bad_request(
            r,
            "Invalid share name (allowed: letters, digits, _, ., $, -, max 64 chars)"@,
        ),
{
    match regex_is_match(r"^[a-zA-Z0-9_.$-]{1,64}$", name) {
        Some(true) => Ok(()),
        Some(false) => bad_request(
            "Invalid share name (allowed: letters, digits, _, ., $, -, max 64 chars)",
        ),
        None => Err(ApiError::Internal(owned("share name pattern does not compile"))),
    }
}

pub open spec fn username_ok(name: Seq<char>) -> bool {
    regex_match(r"^[a-zA-Z0-9_.-]{1,32}$"@, name) == Some(true)
}

pub fn validate_username(name: &str) -> (r: ApiResult<()>)
    ensures
        r is Ok <==> username_ok(name@),
        regex_match(r"^[a-zA-Z0-9_.-]{1,32}$"@, name@) == Some(false) ==> is_bad_request(
            r,
            "Invalid username (allowed: letters, digits, _, ., -, max 32 chars)"@,
        ),
{
    match regex_is_match(r"^[a-zA-Z0-9_.-]{1,32}$", name) {
        Some(true) => Ok(()),
        Some(false) => bad_request(
            "Invalid username (allowed: letters, digits, _, ., -, max 32 chars)",
        ),
        None => Err(ApiError::Internal(owned("user name pattern does not compile"))),
    }
}

/// A share path: absolute, without NUL.
pub fn validate_path(path: &str) -> (r: ApiResult<()>)
    ensures
        r is Ok <==> (starts_with(path@, "/"@) && !path@.contains('\0')),
        !starts_with(path@, "/"@) ==> is_bad_request(r, "Path must be absolute"@),
        starts_with(path@, "/"@) && path@.contains('\0') ==> is_bad_request(r, "Invalid path"@),
{
    if !starts_with_str(path, "/") {
        return bad_request("Path must be absolute");
    }
    if contains_char(path, '\0') {
        return bad_request("Invalid path");
    }
    Ok(())
}

// ───────────────────────── reading smb4.conf ─────────────────────────

/// The properties of one section: `key = value` pairs in file order.
pub type PropsView = Seq<(Seq<char>, Seq<char>)>;

/// The value of the last `key` in a section (a later line overrides an
/// earlier one).
pub open spec fn last_value(p: PropsView, key: Seq<char>) -> Option<Seq<char>>
    decreases p.len(),
{
    if p.len() == 0 {
        None
    } else if p.last().0 == key {
        Some(p.last().1)
    } else {
        last_value(p.drop_last(), key)
    }
}

pub fn prop_get(props: &Vec<(String, String)>, key: &str) -> (r: Option<String>)
    ensures
        match r {
            Some(v) => last_value(props.deep_view(), key@) == Some(v@),
            None => last_value(props.deep_view(), key@) is None,
        },
{
    let ghost dv = props.deep_view();
    let mut i: usize = props.len();
    assert(dv.take(i as int) =~= dv);
    while i > 0
        invariant
            i <= props@.len() == dv.len(),
            dv == props.deep_view(),
            last_value(dv.take(i as int), key@) == last_value(dv, key@),
        decreases i,
    {
        assert(dv[i - 1] == (props@[i - 1].0@, props@[i - 1].1@));
        assert(dv.take(i as int).last() == dv[i - 1]);
        if str_eq(props[i - 1].0.as_str(), key) {
            return Some(props[i - 1].1.clone());
        }
        assert(dv.take(i as int).drop_last() =~= dv.take(i - 1));
        i -= 1;
    }
    None
}

/// Samba's boolean spelling as the panel reads it.
pub open spec fn truthy(v: Seq<char>) -> bool {
    eq_ignore_case(v, "yes"@) || v == "true"@ || v == "1"@
}

/// A missing boolean reads as `true`.
pub open spec fn bool_prop(v: Option<Seq<char>>) -> bool {
    match v {
        Some(s) => truthy(s),
        None => true,
    }
}

pub fn parse_bool(v: Option<&str>) -> (b: bool)
    ensures
        b == bool_prop(match v {
            Some(s) => Some(s@),
            None => None,
        }),
{
    match v {
        Some(s) => eq_ignore_case_str(s, "yes") || str_eq(s, "true") || str_eq(s, "1"),
        None => true,
    }
}

/// `yes` or `no`.
pub fn yn(b: bool) -> (r: &'static str)
    ensures
        r@ == if b {
            "yes"@
        } else {
            "no"@
        },
{
    if b {
        "yes"
    } else {
        "no"
    }
}

pub open spec fn or_default(v: Option<Seq<char>>, d: Seq<char>) -> Seq<char> {
    match v {
        Some(s) => s,
        None => d,
    }
}

/// `s` is the share that section `name` with properties `p` describes.
pub open spec fn share_from_props(s: SmbShare, name: Seq<char>, p: PropsView) -> bool {
    &&& s.name@ == name
    &&& s.comment@ == or_default(last_value(p, "comment"@), seq![])
    &&& s.path@ == or_default(last_value(p, "path"@), seq![])
    &&& s.browseable == bool_prop(last_value(p, "browseable"@))
    &&& s.writable == bool_prop(last_value(p, "writable"@))
    &&& s.guest_ok == bool_prop(last_value(p, "guest ok"@))
    &&& s.valid_users.deep_view() == match last_value(p, "valid users"@) {
        Some(v) => words(v),
        None => seq![],
    }
    &&& s.create_mask@ == or_default(last_value(p, "create mask"@), "0664"@)
    &&& s.directory_mask@ == or_default(last_value(p, "directory mask"@), "0775"@)
    &&& s.time_machine == match last_value(p, "fruit:time machine"@) {
        Some(v) => truthy(v),
        None => false,
    }
    &&& s.time_machine_max_size@ == or_default(last_value(p, "fruit:time machine max size"@), seq![])
}

fn prop_or(props: &Vec<(String, String)>, key: &str, d: &str) -> (r: String)
    ensures
        r@ == or_default(last_value(props.deep_view(), key@), d@),
{
    match prop_get(props, key) {
        Some(v) => v,
        None => owned(d),
    }
}

fn prop_bool(props: &Vec<(String, String)>, key: &str) -> (b: bool)
    ensures
        b == bool_prop(last_value(props.deep_view(), key@)),
{
    match prop_get(props, key) {
        Some(v) => parse_bool(Some(v.as_str())),
        None => parse_bool(None),
    }
}

/// A share from its section name and properties.
pub fn props_to_share(name: &str, props: &Vec<(String, String)>) -> (s: SmbShare)
    ensures
        share_from_props(s, name@, props.deep_view()),
{
    proof {
        reveal_strlit("");
    }
    let valid_users = match prop_get(props, "valid users") {
        Some(v) => split_ws(v.as_str()),
        None => Vec::new(),
    };
    proof {
        if last_value(props.deep_view(), "valid users"@) is None {
            assert(valid_users.deep_view() =~= Seq::<Seq<char>>::empty());
        }
    }
    let time_machine = match prop_get(props, "fruit:time machine") {
        Some(v) => eq_ignore_case_str(v.as_str(), "yes") || str_eq(v.as_str(), "true") || str_eq(
            v.as_str(),
            "1",
        ),
        None => false,
    };
    let r = SmbShare {
        name: owned(name),
        comment: prop_or(props, "comment", ""),
        path: prop_or(props, "path", ""),
        browseable: prop_bool(props, "browseable"),
        writable: prop_bool(props, "writable"),
        guest_ok: prop_bool(props, "guest ok"),
        valid_users,
        create_mask: prop_or(props, "create mask", "0664"),
        directory_mask: prop_or(props, "directory mask", "0775"),
        time_machine,
        time_machine_max_size: prop_or(props, "fruit:time machine max size", ""),
    };
    assert(r.name@ == name@);
    assert(r.comment@ == or_default(last_value(props.deep_view(), "comment"@), seq![]));
    assert(r.valid_users.deep_view() == match last_value(props.deep_view(), "valid users"@) {
        Some(v) => words(v),
        None => seq![],
    });
    assert(r.time_machine == match last_value(props.deep_view(), "fruit:time machine"@) {
        Some(v) => truthy(v),
        None => false,
    });
    assert(r.path@ == or_default(last_value(props.deep_view(), "path"@), seq![]));
    assert(r.browseable == bool_prop(last_value(props.deep_view(), "browseable"@)));
    assert(r.create_mask@ == or_default(last_value(props.deep_view(), "create mask"@), "0664"@));
    assert(r.time_machine_max_size@ == or_default(last_value(props.deep_view(), "fruit:time machine max size"@), seq![]));
    r
}

/// The global settings, as values.
pub struct GlobalView {
    pub workgroup: Seq<char>,
    pub server_string: Seq<char>,
    pub server_role: Seq<char>,
    pub map_to_guest: Seq<char>,
    pub passdb_backend: Seq<char>,
    pub server_min_protocol: Seq<char>,
    pub dns_proxy: Seq<char>,
    pub load_printers: Seq<char>,
    pub log_level: u8,
    pub fruit_enabled: bool,
}

pub open spec fn gview(g: GlobalConfig) -> GlobalView {
    GlobalView {
        workgroup: g.workgroup@,
        server_string: g.server_string@,
        server_role: g.server_role@,
        map_to_guest: g.map_to_guest@,
        passdb_backend: g.passdb_backend@,
        server_min_protocol: g.server_min_protocol@,
        dns_proxy: g.dns_proxy@,
        load_printers: g.load_printers@,
        log_level: g.log_level,
        fruit_enabled: g.fruit_enabled,
    }
}

pub open spec fn default_gview() -> GlobalView {
    GlobalView {
        workgroup: "WORKGROUP"@,
        server_string: "FreeBSD Samba Server"@,
        server_role: "standalone"@,
        map_to_guest: "Bad User"@,
        passdb_backend: "tdbsam"@,
        server_min_protocol: "SMB2"@,
        dns_proxy: "no"@,
        load_printers: "no"@,
        log_level: 1,
        fruit_enabled: false,
    }
}

/// Whether some word of `v` is `fruit`, ignoring ASCII case.
pub open spec fn names_fruit(v: Seq<char>) -> bool {
    exists|k: int| 0 <= k < words(v).len() && eq_ignore_case(#[trigger] words(v)[k], "fruit"@)
}

/// A `[global]` section applied to the settings read so far: each key
/// present replaces its setting; `log level` only when it is a number that
/// fits a byte; `vfs objects` naming `fruit` turns macOS support on.
pub open spec fn apply_global_view(g: GlobalView, p: PropsView) -> GlobalView {
    GlobalView {
        workgroup: or_default(last_value(p, "workgroup"@), g.workgroup),
        server_string: or_default(last_value(p, "server string"@), g.server_string),
        server_role: or_default(last_value(p, "server role"@), g.server_role),
        map_to_guest: or_default(last_value(p, "map to guest"@), g.map_to_guest),
        passdb_backend: or_default(last_value(p, "passdb backend"@), g.passdb_backend),
        server_min_protocol: or_default(
            last_value(p, "server min protocol"@),
            g.server_min_protocol,
        ),
        dns_proxy: or_default(last_value(p, "dns proxy"@), g.dns_proxy),
        load_printers: or_default(last_value(p, "load printers"@), g.load_printers),
        log_level: match last_value(p, "log level"@) {
            Some(v) => match parse_unsigned(v, 255) {
                Some(n) => n as u8,
                None => g.log_level,
            },
            None => g.log_level,
        },
        fruit_enabled: g.fruit_enabled || match last_value(p, "vfs objects"@) {
            Some(v) => names_fruit(v),
            None => false,
        },
    }
}

fn set_if_present(field: &mut String, props: &Vec<(String, String)>, key: &str)
    ensures
        final(field)@ == or_default(last_value(props.deep_view(), key@), old(field)@),
{
    match prop_get(props, key) {
        Some(v) => {
            *field = v;
        },
        None => {},
    }
}

fn any_word_fruit(v: &str) -> (b: bool)
    ensures
        b == names_fruit(v@),
{
    let ws = split_ws(v);
    let ghost dv = ws.deep_view();
    let mut i: usize = 0;
    while i < ws.len()
        invariant
            i <= ws@.len() == dv.len(),
            dv == ws.deep_view(),
            dv == words(v@),
            forall|k: int| 0 <= k < i ==> !eq_ignore_case(#[trigger] dv[k], "fruit"@),
        decreases ws@.len() - i,
    {
        assert(dv[i as int] == ws@[i as int]@);
        if eq_ignore_case_str(ws[i].as_str(), "fruit") {
            return true;
        }
        i += 1;
    }
    false
}

/// Applies a `[global]` section's properties to the settings.
pub fn apply_global(global: &mut GlobalConfig, props: &Vec<(String, String)>)
    ensures
        gview(*final(global)) == apply_global_view(gview(*old(global)), props.deep_view()),
{
    set_if_present(&mut global.workgroup, props, "workgroup");
    set_if_present(&mut global.server_string, props, "server string");
    set_if_present(&mut global.server_role, props, "server role");
    set_if_present(&mut global.map_to_guest, props, "map to guest");
    set_if_present(&mut global.passdb_backend, props, "passdb backend");
    set_if_present(&mut global.server_min_protocol, props, "server min protocol");
    set_if_present(&mut global.dns_proxy, props, "dns proxy");
    set_if_present(&mut global.load_printers, props, "load printers");
    match prop_get(props, "log level") {
        Some(v) => match parse_unsigned_str(v.as_str(), 255) {
            Some(n) => {
                global.log_level = n as u8;
            },
            None => {},
        },
        None => {},
    }
    match prop_get(props, "vfs objects") {
        Some(v) => {
            if any_word_fruit(v.as_str()) {
                global.fruit_enabled = true;
            }
        },
        None => {},
    }
}

/// A section: its name and its properties.
pub type SectionView = (Seq<char>, PropsView);

/// One line of `smb4.conf` read into the sections seen so far. Blank lines
/// and `#` / `;` comments are skipped; `[name]` opens a section; `key =
/// value` adds a property (key lower-cased, both sides trimmed) to the open
/// section, if any; anything else is ignored.
pub open spec fn ini_step(secs: Seq<SectionView>, raw: Seq<char>) -> Seq<SectionView> {
    let t = crate::text::trim(raw);
    if t.len() == 0 || starts_with(t, "#"@) || starts_with(t, ";"@) {
        secs
    } else if starts_with(t, "["@) && crate::text::ends_with(t, "]"@) && t.len() >= 2 {
        secs.push((crate::text::trim(t.subrange(1, t.len() - 1)), seq![]))
    } else {
        match crate::text::find_char(t, '=') {
            Some(eq) => if secs.len() > 0 {
                secs.update(
                    secs.len() - 1,
                    (
                        secs.last().0,
                        secs.last().1.push(
                            (
                                crate::text::unicode_lower(crate::text::trim(t.take(eq))),
                                crate::text::trim(t.skip(eq + 1)),
                            ),
                        ),
                    ),
                )
            } else {
                secs
            },
            None => secs,
        }
    }
}

/// The sections of a file, line by line.
pub open spec fn ini_sections(ls: Seq<Seq<char>>) -> Seq<SectionView>
    decreases ls.len(),
{
    if ls.len() == 0 {
        seq![]
    } else {
        ini_step(ini_sections(ls.drop_last()), ls.last())
    }
}

/// A section named `global`, in any ASCII case.
pub open spec fn is_global_section(name: Seq<char>) -> bool {
    eq_ignore_case(name, "global"@)
}

/// The global settings after every `[global]` section, in order.
pub open spec fn globals_of(secs: Seq<SectionView>) -> GlobalView
    decreases secs.len(),
{
    if secs.len() == 0 {
        default_gview()
    } else if is_global_section(secs.last().0) {
        apply_global_view(globals_of(secs.drop_last()), secs.last().1)
    } else {
        globals_of(secs.drop_last())
    }
}

/// The sections that are shares, in order.
pub open spec fn share_sections(secs: Seq<SectionView>) -> Seq<SectionView>
    decreases secs.len(),
{
    if secs.len() == 0 {
        seq![]
    } else if is_global_section(secs.last().0) {
        share_sections(secs.drop_last())
    } else {
        share_sections(secs.drop_last()).push(secs.last())
    }
}

/// `shares` are the shares those sections describe.
pub open spec fn shares_match(shares: Seq<SmbShare>, secs: Seq<SectionView>) -> bool {
    shares.len() == secs.len() && forall|i: int|
        0 <= i < shares.len() ==> share_from_props(#[trigger] shares[i], secs[i].0, secs[i].1)
}

/// `c` is the configuration that the text `content` describes.
pub open spec fn conf_of(c: SmbConfig, content: Seq<char>) -> bool {
    let secs = ini_sections(crate::text::lines(content));
    gview(c.global) == globals_of(secs) && shares_match(c.shares@, share_sections(secs))
}

fn flush_section(
    global: &mut GlobalConfig,
    shares: &mut Vec<SmbShare>,
    name: &String,
    props: &Vec<(String, String)>,
    Ghost(done): Ghost<Seq<SectionView>>,
)
    requires
        gview(*old(global)) == globals_of(done),
        shares_match(old(shares)@, share_sections(done)),
    ensures
        gview(*final(global)) == globals_of(done.push((name@, props.deep_view()))),
        shares_match(final(shares)@, share_sections(done.push((name@, props.deep_view())))),
{
    let ghost all = done.push((name@, props.deep_view()));
    assert(all.drop_last() =~= done);
    if eq_ignore_case_str(name.as_str(), "global") {
        apply_global(global, props);
    } else {
        let s = props_to_share(name.as_str(), props);
        shares.push(s);
        assert(share_sections(all) == share_sections(done).push((name@, props.deep_view())));
    }
}

/// Reads the text of `smb4.conf` into the configuration it describes.
pub fn parse_conf_text(content: &str) -> (c: SmbConfig)
    ensures
        conf_of(c, content@),
{
    proof {
        reveal_strlit("#");
        reveal_strlit(";");
        reveal_strlit("[");
        reveal_strlit("]");
    }
    let ls = split_lines(content);
    let ghost lv = ls.deep_view();
    let mut global = GlobalConfig::default();
    let mut shares: Vec<SmbShare> = Vec::new();
    let mut cur_name = String::new();
    let mut cur_props: Vec<(String, String)> = Vec::new();
    let mut open = false;
    let ghost mut done: Seq<SectionView> = seq![];
    let mut i: usize = 0;
    assert(lv.take(0) =~= Seq::<Seq<char>>::empty());
    while i < ls.len()
        invariant
            i <= ls@.len() == lv.len(),
            lv == ls.deep_view(),
            lv == crate::text::lines(content@),
            gview(global) == globals_of(done),
            shares_match(shares@, share_sections(done)),
            ini_sections(lv.take(i as int)) == if open {
                done.push((cur_name@, cur_props.deep_view()))
            } else {
                done
            },
            !open ==> done.len() == 0,
        decreases ls@.len() - i,
    {
        let ghost before = ini_sections(lv.take(i as int));
        assert(lv.take(i + 1).drop_last() =~= lv.take(i as int));
        assert(lv[i as int] == ls@[i as int]@);
        let t = crate::text::trim_str(ls[i].as_str());
        let tv = crate::text::chars_of(t.as_str());
        let tn = tv.len();
        if t.as_str().is_empty() || starts_with_str(t.as_str(), "#") || starts_with_str(
            t.as_str(),
            ";",
        ) {
            // skipped
        } else if starts_with_str(t.as_str(), "[") && crate::text::ends_with_str(t.as_str(), "]")
            && tv.len() >= 2 {
            if open {
                flush_section(&mut global, &mut shares, &cur_name, &cur_props, Ghost(done));
                proof {
                    done = done.push((cur_name@, cur_props.deep_view()));
                }
            }
            let inner = crate::text::string_from(&tv, 1, tv.len() - 1);
            cur_name = crate::text::trim_str(inner.as_str());
            cur_props = Vec::new();
            open = true;
            assert(cur_props.deep_view() =~= Seq::<(Seq<char>, Seq<char>)>::empty());
        } else {
            match crate::text::find_char_vec(&tv, '=') {
                Some(eq) => {
                    if open {
                        let k = crate::text::string_from(&tv, 0, eq);
                        let kt = crate::text::trim_str(k.as_str());
                        let key = crate::text::to_lowercase_str(kt.as_str());
                        let val0 = crate::text::string_from(&tv, eq + 1, tn);
                        let val = crate::text::trim_str(val0.as_str());
                        assert(k@ =~= t@.take(eq as int));
                        assert(val0@ =~= t@.skip(eq + 1));
                        let ghost p0 = cur_props.deep_view();
                        cur_props.push((key, val));
                        assert(cur_props.deep_view() =~= p0.push(
                            (
                                crate::text::unicode_lower(crate::text::trim(t@.take(eq as int))),
                                crate::text::trim(t@.skip(eq + 1)),
                            ),
                        ));
                    }
                },
                None => {},
            }
        }
        i += 1;
    }
    assert(lv.take(ls@.len() as int) =~= lv);
    if open {
        flush_section(&mut global, &mut shares, &cur_name, &cur_props, Ghost(done));
        proof {
            done = done.push((cur_name@, cur_props.deep_view()));
        }
    }
    SmbConfig { global, shares }
}

// ───────────────────────── writing smb4.conf ─────────────────────────

/// `    key = value` and a newline.
pub open spec fn kv_line(key: Seq<char>, value: Seq<char>) -> Seq<char> {
    "    "@ + key + " = "@ + value + "\n"@
}

pub open spec fn yn_spec(b: bool) -> Seq<char> {
    if b {
        "yes"@
    } else {
        "no"@
    }
}

/// The settings lines of the `[global]` section.
pub open spec fn global_settings(g: GlobalConfig) -> Seq<char> {
    kv_line("workgroup"@, g.workgroup@) + kv_line("server string"@, g.server_string@) + kv_line(
        "server role"@,
        g.server_role@,
    ) + kv_line("map to guest"@, g.map_to_guest@) + kv_line("passdb backend"@, g.passdb_backend@)
        + kv_line("server min protocol"@, g.server_min_protocol@) + kv_line(
        "dns proxy"@,
        g.dns_proxy@,
    ) + kv_line("load printers"@, g.load_printers@)
}

/// The logging lines, and the macOS lines when enabled.
pub open spec fn global_logging(g: GlobalConfig) -> Seq<char> {
    kv_line("log level"@, dec(g.log_level as nat)) + "    logging = file\n"@
        + "    log file = /var/log/samba4/log.%m\n"@ + "    max log size = 50\n"@ + (if g.fruit_enabled {
        "    vfs objects = fruit streams_xattr\n"@ + "    fruit:aapl = yes\n"@
            + "    fruit:metadata = stream\n"@ + "    fruit:encoding = native\n"@
    } else {
        seq![]
    })
}

/// The `[global]` section as written.
pub open spec fn global_text(g: GlobalConfig) -> Seq<char> {
    "[global]\n"@ + global_settings(g) + global_logging(g) + "\n"@
}

/// The lines of a share that every share has, up to `guest ok`.
pub open spec fn share_head(s: SmbShare) -> Seq<char> {
    "["@ + s.name@ + "]\n"@ + kv_line("comment"@, s.comment@) + kv_line("path"@, s.path@)
        + kv_line("browseable"@, yn_spec(s.browseable)) + kv_line(
        "writable"@,
        yn_spec(s.writable),
    ) + kv_line("guest ok"@, yn_spec(s.guest_ok))
}

/// `valid users`, when the share names any.
pub open spec fn share_users(s: SmbShare) -> Seq<char> {
    if s.valid_users@.len() > 0 {
        kv_line("valid users"@, crate::text::join(s.valid_users.deep_view(), " "@))
    } else {
        seq![]
    }
}

/// The Time Machine lines; `fruit` tells whether the global section
/// already loads the macOS module.
pub open spec fn share_time_machine(s: SmbShare, fruit: bool) -> Seq<char> {
    if s.time_machine {
        (if !fruit {
            "    vfs objects = fruit streams_xattr\n"@
        } else {
            seq![]
        }) + "    fruit:time machine = yes\n"@ + (if crate::text::trim(
            s.time_machine_max_size@,
        ).len() > 0 {
            kv_line("fruit:time machine max size"@, crate::text::trim(s.time_machine_max_size@))
        } else {
            seq![]
        })
    } else {
        seq![]
    }
}

/// One share section as written.
pub open spec fn share_text(s: SmbShare, fruit: bool) -> Seq<char> {
    share_head(s) + share_users(s) + kv_line("create mask"@, s.create_mask@) + kv_line(
        "directory mask"@,
        s.directory_mask@,
    ) + share_time_machine(s, fruit) + "\n"@
}

pub open spec fn shares_text(ss: Seq<SmbShare>, fruit: bool) -> Seq<char>
    decreases ss.len(),
{
    if ss.len() == 0 {
        seq![]
    } else {
        shares_text(ss.drop_last(), fruit) + share_text(ss.last(), fruit)
    }
}

/// The text of `smb4.conf` for a configuration.
pub open spec fn conf_text(c: SmbConfig) -> Seq<char> {
    "# Managed by FreeBSD Web Panel\n\n"@ + global_text(c.global) + shares_text(
        c.shares@,
        c.global.fruit_enabled,
    )
}

fn push_kv(out: &mut String, key: &str, value: &str)
    ensures
        final(out)@ == old(out)@ + kv_line(key@, value@),
{
    let ghost o = out@;
    push_str(out, "    ");
    push_str(out, key);
    push_str(out, " = ");
    push_str(out, value);
    push_str(out, "\n");
    assert(out@ =~= o + kv_line(key@, value@));
}

fn push_global_settings(out: &mut String, g: &GlobalConfig)
    ensures
        final(out)@ == old(out)@ + global_settings(*g),
{
    let ghost o = out@;
    push_kv(out, "workgroup", g.workgroup.as_str());
    push_kv(out, "server string", g.server_string.as_str());
    push_kv(out, "server role", g.server_role.as_str());
    push_kv(out, "map to guest", g.map_to_guest.as_str());
    push_kv(out, "passdb backend", g.passdb_backend.as_str());
    push_kv(out, "server min protocol", g.server_min_protocol.as_str());
    push_kv(out, "dns proxy", g.dns_proxy.as_str());
    push_kv(out, "load printers", g.load_printers.as_str());
    assert(out@ =~= o + global_settings(*g));
}

fn push_global_logging(out: &mut String, g: &GlobalConfig)
    ensures
        final(out)@ == old(out)@ + global_logging(*g),
{
    let ghost o = out@;
    let level = crate::num::dec_string(g.log_level as u64);
    push_kv(out, "log level", level.as_str());
    push_str(out, "    logging = file\n");
    push_str(out, "    log file = /var/log/samba4/log.%m\n");
    push_str(out, "    max log size = 50\n");
    if g.fruit_enabled {
        push_str(out, "    vfs objects = fruit streams_xattr\n");
        push_str(out, "    fruit:aapl = yes\n");
        push_str(out, "    fruit:metadata = stream\n");
        push_str(out, "    fruit:encoding = native\n");
    }
    assert(out@ =~= o + global_logging(*g));
}

fn push_global(out: &mut String, g: &GlobalConfig)
    ensures
        final(out)@ == old(out)@ + global_text(*g),
{
    let ghost o = out@;
    push_str(out, "[global]\n");
    push_global_settings(out, g);
    push_global_logging(out, g);
    push_str(out, "\n");
    assert(out@ =~= o + global_text(*g));
}

fn push_share_head(out: &mut String, s: &SmbShare)
    ensures
        final(out)@ == old(out)@ + share_head(*s),
{
    let ghost o = out@;
    push_str(out, "[");
    push_str(out, s.name.as_str());
    push_str(out, "]\n");
    push_kv(out, "comment", s.comment.as_str());
    push_kv(out, "path", s.path.as_str());
    push_kv(out, "browseable", yn(s.browseable));
    push_kv(out, "writable", yn(s.writable));
    push_kv(out, "guest ok", yn(s.guest_ok));
    assert(out@ =~= o + share_head(*s));
}

fn push_share_users(out: &mut String, s: &SmbShare)
    ensures
        final(out)@ == old(out)@ + share_users(*s),
{
    let ghost o = out@;
    if s.valid_users.len() > 0 {
        let users = crate::text::join_strings(&s.valid_users, " ");
        push_kv(out, "valid users", users.as_str());
    } else {
        assert(out@ =~= o + share_users(*s));
    }
}

fn push_share_time_machine(out: &mut String, s: &SmbShare, fruit: bool)
    ensures
        final(out)@ == old(out)@ + share_time_machine(*s, fruit),
{
    let ghost o = out@;
    if s.time_machine {
        if !fruit {
            push_str(out, "    vfs objects = fruit streams_xattr\n");
        }
        push_str(out, "    fruit:time machine = yes\n");
        let size = crate::text::trim_str(s.time_machine_max_size.as_str());
        if !size.as_str().is_empty() {
            push_kv(out, "fruit:time machine max size", size.as_str());
        }
    }
    assert(out@ =~= o + share_time_machine(*s, fruit));
}

fn push_share(out: &mut String, s: &SmbShare, fruit: bool)
    ensures
        final(out)@ == old(out)@ + share_text(*s, fruit),
{
    let ghost o = out@;
    push_share_head(out, s);
    push_share_users(out, s);
    push_kv(out, "create mask", s.create_mask.as_str());
    push_kv(out, "directory mask", s.directory_mask.as_str());
    push_share_time_machine(out, s, fruit);
    push_str(out, "\n");
    assert(out@ =~= o + share_text(*s, fruit));
}

/// The text of `smb4.conf` for `config`.
pub fn generate_conf(config: &SmbConfig) -> (r: String)
    ensures
        r@ == conf_text(*config),
{
    let mut out = owned("# Managed by FreeBSD Web Panel\n\n");
    push_global(&mut out, &config.global);
    let ghost head = out@;
    let fruit = config.global.fruit_enabled;
    let mut i: usize = 0;
    assert(config.shares@.take(0) =~= Seq::<SmbShare>::empty());
    while i < config.shares.len()
        invariant
            i <= config.shares@.len(),
            fruit == config.global.fruit_enabled,
            out@ == head + shares_text(config.shares@.take(i as int), fruit),
        decreases config.shares@.len() - i,
    {
        push_share(&mut out, &config.shares[i], fruit);
        assert(config.shares@.take(i + 1).drop_last() =~= config.shares@.take(i as int));
        i += 1;
    }
    assert(config.shares@.take(config.shares@.len() as int) =~= config.shares@);
    out
}

/// A fresh configuration: default global settings and no shares.
pub fn default_conf() -> (c: SmbConfig)
    ensures
        is_default_global(c.global),
        c.shares@.len() == 0,
{
    SmbConfig { global: GlobalConfig::default(), shares: Vec::new() }
}

/// The text written when Samba is initialised.
pub fn write_default_conf() -> (r: String)
    ensures
        exists|c: SmbConfig| is_default_global(c.global) && c.shares@.len() == 0 && r@ == conf_text(c),
{
    let c = default_conf();
    generate_conf(&c)
}

} // verus!
