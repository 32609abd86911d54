//! System users and groups.
use vstd::prelude::*;
use crate::error::{ApiError, ApiResult, bad_request, bad_request_owned, is_bad_request, is_conflict, is_bad};
use crate::num::{dec, parse_unsigned, parse_u32, push_dec};
use crate::pattern::{regex_compiles, regex_match, regex_is_match};
use crate::text::{
    all_chars, chars_of, contains_char, join, join_strings, lines, owned, push_str, split_char,
    split_lines, split_str, splitn_char, splitn_str, starts_with, starts_with_str, str_eq,
    string_eq, trim, trim_end, trim_end_str, trim_str,
};

verus! {

/// A user account as listed.
#[derive(Debug, Clone)]
pub struct SystemUser {
    pub name: String,
    pub uid: u32,
    pub gid: u32,
    pub gecos: String,
    pub home: String,
    pub shell: String,
    pub group_name: Option<String>,
    pub groups: Vec<String>,
    pub locked: bool,
}

/// A group as listed.
#[derive(Debug, Clone)]
pub struct SystemGroup {
    pub name: String,
    pub gid: u32,
    pub members: Vec<String>,
}

/// A user to create.
#[derive(Debug, Clone)]
pub struct CreateUserReq {
    pub name: String,
    pub uid: Option<u32>,
    pub gid: Option<String>,
    pub gecos: Option<String>,
    pub home: Option<String>,
    pub shell: Option<String>,
    pub groups: Option<Vec<String>>,
    pub password: Option<String>,
    pub create_home: bool,
}

/// Changes to a user; absent fields stay as they are.
#[derive(Debug, Clone)]
pub struct UpdateUserReq {
    pub new_name: Option<String>,
    pub uid: Option<u32>,
    pub gid: Option<String>,
    pub gecos: Option<String>,
    pub home: Option<String>,
    pub shell: Option<String>,
    pub groups: Option<Vec<String>>,
    pub password: Option<String>,
    pub locked: Option<bool>,
}

/// Whether deleting a user also removes the home directory.
#[derive(Debug, Clone)]
pub struct RemoveHomeQuery {
    pub remove_home: bool,
}

/// A group to create.
#[derive(Debug, Clone)]
pub struct CreateGroupReq {
    pub name: String,
    pub gid: Option<u32>,
    pub members: Option<Vec<String>>,
}

/// Changes to a group; absent fields stay as they are.
#[derive(Debug, Clone)]
pub struct UpdateGroupReq {
    pub new_name: Option<String>,
    pub gid: Option<u32>,
    pub members: Option<Vec<String>>,
}

pub open spec fn ov(o: Option<String>) -> Option<Seq<char>> {
    match o {
        Some(s) => Some(s@),
        None => None,
    }
}

// ───────────────────────── validation ─────────────────────────

/// Login and group names: a letter, digit or `_`, then up to 31 letters,
/// digits, `_`, `.`, `-`.
pub open spec fn name_ok(name: Seq<char>) -> bool {
    regex_match(r"^[a-zA-Z0-9_][a-zA-Z0-9_.-]{0,31}$"@, name) == Some(true)
}

/// The account-name pattern is accepted by the regex engine (where it is
/// not, the name check cannot be made and answers an internal error).
pub open spec fn name_pattern_compiles() -> bool {
    regex_compiles(r"^[a-zA-Z0-9_][a-zA-Z0-9_.-]{0,31}$"@)
}

pub fn validate_name(name: &str) -> (r: ApiResult<()>)
    ensures
        r is Ok <==> name_ok(name@),
        name_pattern_compiles() ==> r is Ok || is_bad(r),
        regex_match(r"^[a-zA-Z0-9_][a-zA-Z0-9_.-]{0,31}$"@, name@) == Some(false)
            ==> is_bad_request(
            r,
            "Invalid name: allowed letters, digits, _, ., -; must start with a letter, digit, or _; max 32 chars"@,
        ),
{
    match regex_is_match(r"^[a-zA-Z0-9_][a-zA-Z0-9_.-]{0,31}$", name) {
        Some(true) => Ok(()),
        Some(false) => bad_request(
            "Invalid name: allowed letters, digits, _, ., -; must start with a letter, digit, or _; max 32 chars",
        ),
        None => Err(ApiError::Internal(owned("name pattern does not compile"))),
    }
}

/// A comment (GECOS) field: no `:`, newline or NUL; at most 256 characters.
pub open spec fn gecos_ok(s: Seq<char>) -> bool {
    !s.contains(':') && !s.contains('\n') && !s.contains('\0') && s.len() <= 256
}

pub fn validate_gecos(s: &str) -> (r: ApiResult<()>)
    ensures
        r is Ok <==> gecos_ok(s@),
        r is Ok || is_bad(r),
        (s@.contains(':') || s@.contains('\n') || s@.contains('\0')) ==> is_bad_request(
            r,
            "Invalid comment field"@,
        ),
        !(s@.contains(':') || s@.contains('\n') || s@.contains('\0')) && s@.len() > 256
            ==> is_bad_request(r, "Comment too long (max 256 chars)"@),
{
    if contains_char(s, ':') || contains_char(s, '\n') || contains_char(s, '\0') {
        return bad_request("Invalid comment field");
    }
    let v = chars_of(s);
    if v.len() > 256 {
        return bad_request("Comment too long (max 256 chars)");
    }
    Ok(())
}

/// A home directory: absolute, with no NUL or newline.
pub open spec fn path_ok(p: Seq<char>) -> bool {
    starts_with(p, "/"@) && !p.contains('\0') && !p.contains('\n')
}

pub fn validate_path_str(p: &str) -> (r: ApiResult<()>)
    ensures
        r is Ok <==> path_ok(p@),
        r is Ok || is_bad(r),
        !starts_with(p@, "/"@) ==> is_bad_request(r, "Path must be absolute"@),
        starts_with(p@, "/"@) && !path_ok(p@) ==> is_bad_request(r, "Invalid path"@),
{
    if !starts_with_str(p, "/") {
        return bad_request("Path must be absolute");
    }
    if contains_char(p, '\0') || contains_char(p, '\n') {
        return bad_request("Invalid path");
    }
    Ok(())
}

/// A login shell: empty, or one of the shells offered.
pub open spec fn shell_ok(shell: Seq<char>, shells: Seq<Seq<char>>) -> bool {
    shell.len() == 0 || shells.contains(shell)
}

/// Checks a shell against the shells offered (`/etc/shells` and the nologin
/// shells present).
pub fn validate_shell(shell: &str, shells: &Vec<String>) -> (r: ApiResult<()>)
    ensures
        r is Ok <==> shell_ok(shell@, shells.deep_view()),
        r is Ok || is_bad(r),
        !shell_ok(shell@, shells.deep_view()) ==> is_bad_request(
            r,
            "Invalid shell '"@ + shell@ + "': not listed in /etc/shells"@,
        ),
{
    if shell.is_empty() {
        return Ok(());
    }
    let mut i: usize = 0;
    while i < shells.len()
        invariant
            i <= shells@.len(),
            forall|k: int| 0 <= k < i ==> shells.deep_view()[k] != shell@,
        decreases shells@.len() - i,
    {
        assert(shells.deep_view()[i as int] == shells@[i as int]@);
        if str_eq(shells[i].as_str(), shell) {
            assert(shells.deep_view().contains(shell@));
            return Ok(());
        }
        i += 1;
    }
    let mut m = owned("Invalid shell '");
    push_str(&mut m, shell);
    push_str(&mut m, "': not listed in /etc/shells");
    bad_request_owned(m)
}

/// A group given as a number or as a name (empty means none).
pub open spec fn group_ref_ok(s: Seq<char>) -> bool {
    s.len() == 0 || parse_unsigned(s, u32::MAX as nat) is Some || name_ok(s)
}

pub fn validate_group_ref(s: &str) -> (r: ApiResult<()>)
    ensures
        r is Ok <==> group_ref_ok(s@),
        name_pattern_compiles() ==> r is Ok || is_bad(r),
{
    if s.is_empty() {
        return Ok(());
    }
    if parse_u32(s).is_some() {
        return Ok(());
    }
    validate_name(s)
}

pub fn validate_uid(uid: u32) -> (r: ApiResult<()>)
    ensures
        r is Ok <==> uid != 0,
        r is Ok || is_bad(r),
        uid == 0 ==> is_bad_request(r, "UID 0 (root) is reserved"@),
{
    if uid == 0 {
        return bad_request("UID 0 (root) is reserved");
    }
    Ok(())
}

/// The arguments as string slices, for running a command.
pub fn argv(a: &Vec<String>) -> (r: Vec<&str>)
    ensures
        r@.len() == a@.len(),
        forall|i: int| 0 <= i < r@.len() ==> #[trigger] r@[i]@ == a@[i]@,
{
    let mut out: Vec<&str> = Vec::new();
    let mut i: usize = 0;
    while i < a.len()
        invariant
            i <= a@.len(),
            out@.len() == i,
            forall|k: int| 0 <= k < i ==> #[trigger] out@[k]@ == a@[k]@,
        decreases a@.len() - i,
    {
        out.push(a[i].as_str());
        i += 1;
    }
    out
}

// ───────────────────────── reading the account files ─────────────────────────

/// A line that holds a record: not empty, not a `#` comment.
pub open spec fn record_line(l: Seq<char>) -> bool {
    l.len() > 0 && l[0] != '#'
}

fn is_record_line(l: &str) -> (b: bool)
    ensures
        b == record_line(l@),
{
    proof {
        reveal_strlit("#");
    }
    let empty = l.is_empty();
    let hash = starts_with_str(l, "#");
    proof {
        assert("#"@.len() == 1);
        assert("#"@[0] == '#');
        if l@.len() > 0 {
            assert(l@.take(1).len() == 1);
            assert(l@.take(1)[0] == l@[0]);
            if l@[0] == '#' {
                assert(l@.take(1) =~= "#"@);
            }
        }
    }
    !empty && !hash
}

/// The id (third field) of the first record whose name is `name`, in a file
/// whose records have `n` fields; `None` also when that field is no number.
pub open spec fn lookup_id_spec(ls: Seq<Seq<char>>, name: Seq<char>, n: nat) -> Option<nat>
    decreases ls.len(),
{
    if ls.len() == 0 {
        None
    } else {
        let l = ls[0];
        let f = splitn_char(l, n, ':');
        if record_line(l) && f.len() >= 3 && f[0] == name {
            parse_unsigned(f[2], u32::MAX as nat)
        } else {
            lookup_id_spec(ls.drop_first(), name, n)
        }
    }
}

fn lookup_id(content: &str, name: &str, n: usize) -> (r: Option<u32>)
    ensures
        match r {
            Some(x) => lookup_id_spec(lines(content@), name@, n as nat) == Some(x as nat),
            None => lookup_id_spec(lines(content@), name@, n as nat) is None,
        },
{
    let ls = split_lines(content);
    let ghost lv = ls.deep_view();
    let mut i: usize = 0;
    assert(lv.skip(0) =~= lv);
    while i < ls.len()
        invariant
            i <= ls@.len() == lv.len(),
            lv == ls.deep_view(),
            lv == lines(content@),
            lookup_id_spec(lv.skip(i as int), name@, n as nat) == lookup_id_spec(lv, name@, n as nat),
        decreases ls@.len() - i,
    {
        assert(lv.skip(i as int)[0] == lv[i as int]);
        assert(lv[i as int] == ls@[i as int]@);
        let l = ls[i].as_str();
        if is_record_line(l) {
            let f = splitn_str(l, n, ':');
            if f.len() >= 3 {
                assert(f.deep_view()[0] == f@[0]@);
                assert(f.deep_view()[2] == f@[2]@);
                if str_eq(f[0].as_str(), name) {
                    return parse_u32(f[2].as_str());
                }
            }
        }
        assert(lv.skip(i as int).drop_first() =~= lv.skip(i + 1));
        i += 1;
    }
    assert(lv.skip(i as int).len() == 0);
    None
}

/// The uid of user `name` in `/etc/passwd`.
pub fn lookup_uid(passwd: &str, name: &str) -> (r: Option<u32>)
    ensures
        match r {
            Some(x) => lookup_id_spec(lines(passwd@), name@, 7) == Some(x as nat),
            None => lookup_id_spec(lines(passwd@), name@, 7) is None,
        },
{
    lookup_id(passwd, name, 7)
}

/// The gid of group `name` in `/etc/group`.
pub fn lookup_gid(group: &str, name: &str) -> (r: Option<u32>)
    ensures
        match r {
            Some(x) => lookup_id_spec(lines(group@), name@, 4) == Some(x as nat),
            None => lookup_id_spec(lines(group@), name@, 4) is None,
        },
{
    lookup_id(group, name, 4)
}

/// gid → group name, read from `/etc/group`; a later line overrides an
/// earlier one with the same gid.
pub struct GroupMap {
    pub entries: Vec<(u32, String)>,
}

/// user → groups that list the user as a member, in file order.
pub struct SuppMap {
    /// (member, group) pairs in file order.
    pub pairs: Vec<(String, String)>,
}

/// Users whose password field in `/etc/master.passwd` starts `*LOCKED*`.
pub struct LockedMap {
    pub names: Vec<String>,
}

/// The gid/name pairs of the group records in `ls`, in order.
pub open spec fn group_entries(ls: Seq<Seq<char>>) -> Seq<(u32, Seq<char>)>
    decreases ls.len(),
{
    if ls.len() == 0 {
        seq![]
    } else {
        let earlier = group_entries(ls.drop_last());
        let l = ls.last();
        let f = splitn_char(l, 4, ':');
        if record_line(l) && f.len() >= 3 && parse_unsigned(f[2], u32::MAX as nat) is Some {
            earlier.push((parse_unsigned(f[2], u32::MAX as nat)->Some_0 as u32, f[0]))
        } else {
            earlier
        }
    }
}

/// The name of the last entry with gid `gid`.
pub open spec fn last_gid_name(e: Seq<(u32, Seq<char>)>, gid: u32) -> Option<Seq<char>>
    decreases e.len(),
{
    if e.len() == 0 {
        None
    } else if e.last().0 == gid {
        Some(e.last().1)
    } else {
        last_gid_name(e.drop_last(), gid)
    }
}

pub fn read_group_map(content: &str) -> (m: GroupMap)
    ensures
        m.entries.deep_view() == group_entries(lines(content@)),
{
    let ls = split_lines(content);
    let ghost lv = ls.deep_view();
    let mut entries: Vec<(u32, String)> = Vec::new();
    let mut i: usize = 0;
    assert(lv.take(0) =~= Seq::<Seq<char>>::empty());
    while i < ls.len()
        invariant
            i <= ls@.len() == lv.len(),
            lv == ls.deep_view(),
            entries.deep_view() == group_entries(lv.take(i as int)),
        decreases ls@.len() - i,
    {
        assert(lv[i as int] == ls@[i as int]@);
        assert(lv.take(i + 1).drop_last() =~= lv.take(i as int));
        let l = ls[i].as_str();
        if is_record_line(l) {
            let f = splitn_str(l, 4, ':');
            if f.len() >= 3 {
                assert(f.deep_view()[0] == f@[0]@);
                assert(f.deep_view()[2] == f@[2]@);
                match parse_u32(f[2].as_str()) {
                    Some(gid) => {
                        let ghost e0 = entries.deep_view();
                        entries.push((gid, f[0].clone()));
                        assert(entries.deep_view() =~= e0.push((gid, f@[0]@)));
                    },
                    None => {},
                }
            }
        }
        i += 1;
    }
    assert(lv.take(lv.len() as int) =~= lv);
    GroupMap { entries }
}

impl GroupMap {
    /// The name of group `gid`.
    pub fn get(&self, gid: u32) -> (r: Option<String>)
        ensures
            ov(r) == last_gid_name(self.entries.deep_view(), gid),
    {
        let ghost dv = self.entries.deep_view();
        let mut i: usize = self.entries.len();
        assert(dv.take(i as int) =~= dv);
        while i > 0
            invariant
                i <= self.entries@.len() == dv.len(),
                dv == self.entries.deep_view(),
                last_gid_name(dv.take(i as int), gid) == last_gid_name(dv, gid),
            decreases i,
        {
            assert(dv[i - 1] == (self.entries@[i - 1].0, self.entries@[i - 1].1@));
            assert(dv.take(i as int).last() == dv[i - 1]);
            if self.entries[i - 1].0 == gid {
                return Some(self.entries[i - 1].1.clone());
            }
            assert(dv.take(i as int).drop_last() =~= dv.take(i - 1));
            i -= 1;
        }
        None
    }
}

/// The (member, group) pairs of one group line: each trimmed, non-empty
/// member of the fourth field.
pub open spec fn member_pairs(members: Seq<Seq<char>>, group: Seq<char>) -> Seq<(Seq<char>, Seq<char>)>
    decreases members.len(),
{
    if members.len() == 0 {
        seq![]
    } else {
        member_pairs(members.drop_last(), group) + if trim(members.last()).len() > 0 {
            seq![(trim(members.last()), group)]
        } else {
            seq![]
        }
    }
}

pub open spec fn supp_pairs(ls: Seq<Seq<char>>) -> Seq<(Seq<char>, Seq<char>)>
    decreases ls.len(),
{
    if ls.len() == 0 {
        seq![]
    } else {
        let earlier = supp_pairs(ls.drop_last());
        let l = ls.last();
        let f = splitn_char(l, 4, ':');
        if record_line(l) && f.len() >= 4 && f[3].len() > 0 {
            earlier + member_pairs(split_char(f[3], ','), f[0])
        } else {
            earlier
        }
    }
}

pub fn read_supp_group_map(content: &str) -> (m: SuppMap)
    ensures
        m.pairs.deep_view() == supp_pairs(lines(content@)),
{
    let ls = split_lines(content);
    let ghost lv = ls.deep_view();
    let mut pairs: Vec<(String, String)> = Vec::new();
    let mut i: usize = 0;
    assert(lv.take(0) =~= Seq::<Seq<char>>::empty());
    while i < ls.len()
        invariant
            i <= ls@.len() == lv.len(),
            lv == ls.deep_view(),
            pairs.deep_view() == supp_pairs(lv.take(i as int)),
        decreases ls@.len() - i,
    {
        assert(lv[i as int] == ls@[i as int]@);
        assert(lv.take(i + 1).drop_last() =~= lv.take(i as int));
        let l = ls[i].as_str();
        if is_record_line(l) {
            let f = splitn_str(l, 4, ':');
            if f.len() >= 4 && !f[3].as_str().is_empty() {
                assert(f.deep_view()[0] == f@[0]@);
                assert(f.deep_view()[3] == f@[3]@);
                let members = split_str(f[3].as_str(), ',');
                let ghost mv = members.deep_view();
                let ghost p0 = pairs.deep_view();
                let mut k: usize = 0;
                assert(mv.take(0) =~= Seq::<Seq<char>>::empty());
                assert(p0 + member_pairs(mv.take(0), f@[0]@) =~= p0);
                while k < members.len()
                    invariant
                        k <= members@.len() == mv.len(),
                        mv == members.deep_view(),
                        f@.len() >= 4,
                        pairs.deep_view() == p0 + member_pairs(mv.take(k as int), f@[0]@),
                    decreases members@.len() - k,
                {
                    assert(mv[k as int] == members@[k as int]@);
                    assert(mv.take(k + 1).drop_last() =~= mv.take(k as int));
                    let m = trim_str(members[k].as_str());
                    let ghost q0 = pairs.deep_view();
                    if !m.as_str().is_empty() {
                        pairs.push((m, f[0].clone()));
                        assert(pairs.deep_view() =~= q0.push((trim(mv[k as int]), f@[0]@)));
                    }
                    assert(pairs.deep_view() =~= p0 + member_pairs(mv.take(k + 1), f@[0]@));
                    k += 1;
                }
                assert(mv.take(mv.len() as int) =~= mv);
            }
        }
        i += 1;
    }
    assert(lv.take(lv.len() as int) =~= lv);
    SuppMap { pairs }
}

/// The groups listing `user`, in order.
pub open spec fn groups_of(p: Seq<(Seq<char>, Seq<char>)>, user: Seq<char>) -> Seq<Seq<char>>
    decreases p.len(),
{
    if p.len() == 0 {
        seq![]
    } else {
        groups_of(p.drop_last(), user) + if p.last().0 == user {
            seq![p.last().1]
        } else {
            seq![]
        }
    }
}

impl SuppMap {
    /// The supplementary groups of `user` (empty when none).
    pub fn get(&self, user: &String) -> (r: Vec<String>)
        ensures
            r.deep_view() == groups_of(self.pairs.deep_view(), user@),
    {
        let ghost dv = self.pairs.deep_view();
        let mut out: Vec<String> = Vec::new();
        let mut i: usize = 0;
        assert(dv.take(0) =~= Seq::<(Seq<char>, Seq<char>)>::empty());
        while i < self.pairs.len()
            invariant
                i <= self.pairs@.len() == dv.len(),
                dv == self.pairs.deep_view(),
                out.deep_view() == groups_of(dv.take(i as int), user@),
            decreases self.pairs@.len() - i,
        {
            assert(dv[i as int] == (self.pairs@[i as int].0@, self.pairs@[i as int].1@));
            assert(dv.take(i + 1).drop_last() =~= dv.take(i as int));
            let ghost o0 = out.deep_view();
            if string_eq(&self.pairs[i].0, user) {
                out.push(self.pairs[i].1.clone());
                assert(out.deep_view() =~= o0 + seq![dv[i as int].1]);
            } else {
                assert(out.deep_view() =~= o0 + Seq::<Seq<char>>::empty());
            }
            i += 1;
        }
        assert(dv.take(dv.len() as int) =~= dv);
        out
    }
}

/// The users locked in `/etc/master.passwd`, in order.
pub open spec fn locked_names(ls: Seq<Seq<char>>) -> Seq<Seq<char>>
    decreases ls.len(),
{
    if ls.len() == 0 {
        seq![]
    } else {
        let earlier = locked_names(ls.drop_last());
        let l = ls.last();
        let f = splitn_char(l, 2, ':');
        if record_line(l) && f.len() == 2 && starts_with(f[1], "*LOCKED*"@) {
            earlier.push(f[0])
        } else {
            earlier
        }
    }
}

pub fn read_locked_map(content: &str) -> (m: LockedMap)
    ensures
        m.names.deep_view() == locked_names(lines(content@)),
{
    let ls = split_lines(content);
    let ghost lv = ls.deep_view();
    let mut names: Vec<String> = Vec::new();
    let mut i: usize = 0;
    assert(lv.take(0) =~= Seq::<Seq<char>>::empty());
    while i < ls.len()
        invariant
            i <= ls@.len() == lv.len(),
            lv == ls.deep_view(),
            names.deep_view() == locked_names(lv.take(i as int)),
        decreases ls@.len() - i,
    {
        assert(lv[i as int] == ls@[i as int]@);
        assert(lv.take(i + 1).drop_last() =~= lv.take(i as int));
        let l = ls[i].as_str();
        if is_record_line(l) {
            let f = splitn_str(l, 2, ':');
            if f.len() == 2 {
                assert(f.deep_view()[0] == f@[0]@);
                assert(f.deep_view()[1] == f@[1]@);
                if starts_with_str(f[1].as_str(), "*LOCKED*") {
                    let ghost n0 = names.deep_view();
                    names.push(f[0].clone());
                    assert(names.deep_view() =~= n0.push(f@[0]@));
                }
            }
        }
        i += 1;
    }
    assert(lv.take(lv.len() as int) =~= lv);
    LockedMap { names }
}

impl LockedMap {
    /// Whether `user` is locked.
    pub fn is_locked(&self, user: &String) -> (b: bool)
        ensures
            b == self.names.deep_view().contains(user@),
    {
        let mut i: usize = 0;
        while i < self.names.len()
            invariant
                i <= self.names@.len(),
                forall|k: int| 0 <= k < i ==> self.names.deep_view()[k] != user@,
            decreases self.names@.len() - i,
        {
            assert(self.names.deep_view()[i as int] == self.names@[i as int]@);
            if string_eq(&self.names[i], user) {
                return true;
            }
            i += 1;
        }
        false
    }
}

/// `u` is the account a passwd line describes, given the group tables.
pub open spec fn user_from_line(
    u: SystemUser,
    line: Seq<char>,
    gm: Seq<(u32, Seq<char>)>,
    sm: Seq<(Seq<char>, Seq<char>)>,
    lm: Seq<Seq<char>>,
) -> bool {
    let f = splitn_char(line, 7, ':');
    &&& f.len() >= 7
    &&& parse_unsigned(f[2], u32::MAX as nat) == Some(u.uid as nat)
    &&& parse_unsigned(f[3], u32::MAX as nat) == Some(u.gid as nat)
    &&& u.name@ == f[0]
    &&& u.gecos@ == f[4]
    &&& u.home@ == f[5]
    &&& u.shell@ == trim_end(f[6])
    &&& ov(u.group_name) == last_gid_name(gm, u.gid)
    &&& u.groups.deep_view() == groups_of(sm, f[0])
    &&& u.locked == lm.contains(f[0])
}

/// A passwd line `name:pw:uid:gid:gecos:home:shell` (the first six fields
/// without `:`) describes the account with that name, uid, gid, comment
/// and home directory, in that order, and that shell (trailing whitespace
/// dropped).
pub proof fn lemma_passwd_line_fields(
    u: SystemUser,
    line: Seq<char>,
    gm: Seq<(u32, Seq<char>)>,
    sm: Seq<(Seq<char>, Seq<char>)>,
    lm: Seq<Seq<char>>,
    name: Seq<char>,
    pw: Seq<char>,
    uid: Seq<char>,
    gid: Seq<char>,
    gecos: Seq<char>,
    home: Seq<char>,
    shell: Seq<char>,
)
    requires
        line == name + ":"@ + pw + ":"@ + uid + ":"@ + gid + ":"@ + gecos + ":"@ + home + ":"@ + shell,
        !name.contains(':'),
        !pw.contains(':'),
        !uid.contains(':'),
        !gid.contains(':'),
        !gecos.contains(':'),
        !home.contains(':'),
        user_from_line(u, line, gm, sm, lm),
    ensures
        u.name@ == name,
        parse_unsigned(uid, u32::MAX as nat) == Some(u.uid as nat),
        parse_unsigned(gid, u32::MAX as nat) == Some(u.gid as nat),
        u.gecos@ == gecos,
        u.home@ == home,
        u.shell@ == trim_end(shell),
        u.locked == lm.contains(name),
{
    reveal_strlit(":");
    let c = seq![':'];
    assert(":"@ =~= c);
    let r5 = home + c + shell;
    let r4 = gecos + c + r5;
    let r3 = gid + c + r4;
    let r2 = uid + c + r3;
    let r1 = pw + c + r2;
    assert(line =~= name + c + r1);
    crate::text::lemma_splitn_cons(name, r1, 7, ':');
    crate::text::lemma_splitn_cons(pw, r2, 6, ':');
    crate::text::lemma_splitn_cons(uid, r3, 5, ':');
    crate::text::lemma_splitn_cons(gid, r4, 4, ':');
    crate::text::lemma_splitn_cons(gecos, r5, 3, ':');
    crate::text::lemma_splitn_cons(home, shell, 2, ':');
    assert(splitn_char(shell, 1, ':') == seq![shell]);
    assert(splitn_char(line, 7, ':') =~= seq![name, pw, uid, gid, gecos, home, shell]);
}

/// The account a passwd line describes: `None` for a line with fewer than
/// seven fields or whose uid or gid is no number.
pub fn parse_passwd_line(line: &str, group_map: &GroupMap, supp_map: &SuppMap, locked_map: &LockedMap) -> (r: Option<SystemUser>)
    ensures
        match r {
            Some(u) => user_from_line(
                u,
                line@,
                group_map.entries.deep_view(),
                supp_map.pairs.deep_view(),
                locked_map.names.deep_view(),
            ),
            None => {
                let f = splitn_char(line@, 7, ':');
                f.len() < 7 || parse_unsigned(f[2], u32::MAX as nat) is None || parse_unsigned(
                    f[3],
                    u32::MAX as nat,
                ) is None
            },
        },
{
    let f = splitn_str(line, 7, ':');
    if f.len() < 7 {
        return None;
    }
    let ghost fv = f.deep_view();
    assert(fv[2] == f@[2]@ && fv[3] == f@[3]@ && fv[0] == f@[0]@ && fv[4] == f@[4]@ && fv[5]
        == f@[5]@ && fv[6] == f@[6]@);
    let uid = match parse_u32(f[2].as_str()) {
        Some(u) => u,
        None => return None,
    };
    let gid = match parse_u32(f[3].as_str()) {
        Some(g) => g,
        None => return None,
    };
    let name = f[0].clone();
    let groups = supp_map.get(&name);
    let locked = locked_map.is_locked(&name);
    Some(
        SystemUser {
            name,
            uid,
            gid,
            gecos: f[4].clone(),
            home: f[5].clone(),
            shell: trim_end_str(f[6].as_str()),
            group_name: group_map.get(gid),
            groups,
            locked,
        },
    )
}

/// A group record line read as a group: at least three fields, a numeric
/// gid; members from the fourth field split on `,`.
pub open spec fn group_from_line(g: SystemGroup, line: Seq<char>) -> bool {
    let f = splitn_char(line, 4, ':');
    &&& f.len() >= 3
    &&& parse_unsigned(f[2], u32::MAX as nat) == Some(g.gid as nat)
    &&& g.name@ == f[0]
    &&& g.members.deep_view() == if f.len() >= 4 && f[3].len() > 0 {
        split_char(f[3], ',')
    } else {
        seq![]
    }
}

pub fn parse_group_line(line: &str) -> (r: Option<SystemGroup>)
    ensures
        match r {
            Some(g) => group_from_line(g, line@),
            None => {
                let f = splitn_char(line@, 4, ':');
                f.len() < 3 || parse_unsigned(f[2], u32::MAX as nat) is None
            },
        },
{
    let f = splitn_str(line, 4, ':');
    if f.len() < 3 {
        return None;
    }
    let ghost fv = f.deep_view();
    assert(fv[0] == f@[0]@ && fv[2] == f@[2]@);
    let gid = match parse_u32(f[2].as_str()) {
        Some(g) => g,
        None => return None,
    };
    let members = if f.len() >= 4 && !f[3].as_str().is_empty() {
        assert(fv[3] == f@[3]@);
        split_str(f[3].as_str(), ',')
    } else {
        let v: Vec<String> = Vec::new();
        assert(v.deep_view() =~= Seq::<Seq<char>>::empty());
        v
    };
    Some(SystemGroup { name: f[0].clone(), gid, members })
}

/// The login shells offered: the non-comment lines of `/etc/shells`,
/// trimmed, then each nologin shell that exists and is not listed yet.
pub open spec fn shells_spec(ls: Seq<Seq<char>>) -> Seq<Seq<char>>
    decreases ls.len(),
{
    if ls.len() == 0 {
        seq![]
    } else {
        let t = trim(ls.last());
        shells_spec(ls.drop_last()) + if t.len() > 0 && !starts_with(t, "#"@) {
            seq![t]
        } else {
            seq![]
        }
    }
}

pub open spec fn with_nologin(s: Seq<Seq<char>>, path: Seq<char>, exists: bool) -> Seq<Seq<char>> {
    if exists && !s.contains(path) {
        s.push(path)
    } else {
        s
    }
}

fn push_nologin(shells: &mut Vec<String>, path: &str, exists: bool)
    ensures
        final(shells).deep_view() == with_nologin(old(shells).deep_view(), path@, exists),
{
    if !exists {
        return;
    }
    let mut i: usize = 0;
    while i < shells.len()
        invariant
            i <= shells@.len(),
            forall|k: int| 0 <= k < i ==> shells.deep_view()[k] != path@,
        decreases shells@.len() - i,
    {
        assert(shells.deep_view()[i as int] == shells@[i as int]@);
        if str_eq(shells[i].as_str(), path) {
            assert(shells.deep_view().contains(path@));
            return;
        }
        i += 1;
    }
    let ghost s0 = shells.deep_view();
    shells.push(owned(path));
    assert(shells.deep_view() =~= s0.push(path@));
}

/// The shells offered, from the text of `/etc/shells` and whether
/// `/usr/sbin/nologin` and `/sbin/nologin` exist.
pub fn read_shells_list(content: &str, usr_sbin_nologin: bool, sbin_nologin: bool) -> (r: Vec<String>)
    ensures
        r.deep_view() == with_nologin(
            with_nologin(shells_spec(lines(content@)), "/usr/sbin/nologin"@, usr_sbin_nologin),
            "/sbin/nologin"@,
            sbin_nologin,
        ),
{
    let ls = split_lines(content);
    let ghost lv = ls.deep_view();
    let mut shells: Vec<String> = Vec::new();
    let mut i: usize = 0;
    assert(lv.take(0) =~= Seq::<Seq<char>>::empty());
    while i < ls.len()
        invariant
            i <= ls@.len() == lv.len(),
            lv == ls.deep_view(),
            shells.deep_view() == shells_spec(lv.take(i as int)),
        decreases ls@.len() - i,
    {
        assert(lv[i as int] == ls@[i as int]@);
        assert(lv.take(i + 1).drop_last() =~= lv.take(i as int));
        let t = trim_str(ls[i].as_str());
        let ghost s0 = shells.deep_view();
        if !t.as_str().is_empty() && !starts_with_str(t.as_str(), "#") {
            shells.push(t);
            assert(shells.deep_view() =~= s0 + seq![trim(lv[i as int])]);
        } else {
            assert(shells.deep_view() =~= s0 + Seq::<Seq<char>>::empty());
        }
        i += 1;
    }
    assert(lv.take(lv.len() as int) =~= lv);
    push_nologin(&mut shells, "/usr/sbin/nologin", usr_sbin_nologin);
    push_nologin(&mut shells, "/sbin/nologin", sbin_nologin);
    shells
}

// ───────────────────────── planning `pw` commands ─────────────────────────

/// Accounts and groups with ids below this ship with the system.
pub const SYSTEM_ID_BOUNDARY: u32 = 1000;

pub open spec fn opt_args(flag: Seq<char>, v: Option<Seq<char>>) -> Seq<Seq<char>> {
    match v {
        Some(x) => seq![flag, x],
        None => seq![],
    }
}

pub open spec fn opt_num_args(flag: Seq<char>, v: Option<u32>) -> Seq<Seq<char>> {
    match v {
        Some(x) => seq![flag, dec(x as nat)],
        None => seq![],
    }
}

pub open spec fn trimmed_or_empty(o: Option<String>) -> Seq<char> {
    match o {
        Some(s) => trim(s@),
        None => seq![],
    }
}

pub open spec fn group_list(o: Option<Vec<String>>) -> Seq<Seq<char>> {
    match o {
        Some(v) => v.deep_view(),
        None => seq![],
    }
}

pub open spec fn all_group_refs_ok(gs: Seq<Seq<char>>) -> bool {
    forall|i: int| 0 <= i < gs.len() ==> group_ref_ok(#[trigger] gs[i])
}

pub open spec fn nonempty(o: Option<String>) -> Option<Seq<char>> {
    match o {
        Some(s) => if s@.len() > 0 {
            Some(s@)
        } else {
            None
        },
        None => None,
    }
}

/// What running `pw` for a new user needs.
#[derive(Debug, Clone)]
pub struct UserAddPlan {
    pub name: String,
    pub args: Vec<String>,
    /// Set as the password through standard input when present.
    pub password: Option<String>,
}

/// The checks a new user passes, in the order they are made.
pub open spec fn create_user_ok(req: CreateUserReq, shells: Seq<Seq<char>>, passwd: Seq<char>) -> bool {
    let name = trim(req.name@);
    &&& name_ok(name)
    &&& name != "root"@
    &&& gecos_ok(trimmed_or_empty(req.gecos))
    &&& (req.uid matches Some(u) ==> u != 0)
    &&& (req.gid matches Some(g) ==> group_ref_ok(g@))
    &&& (req.home matches Some(h) ==> path_ok(h@))
    &&& (req.shell matches Some(sh) ==> shell_ok(sh@, shells))
    &&& all_group_refs_ok(group_list(req.groups))
    &&& lookup_id_spec(lines(passwd), name, 7) is None
}

/// The fields of a new user pass their checks (its name may still be taken).
pub open spec fn new_user_fields_ok(req: CreateUserReq, shells: Seq<Seq<char>>) -> bool {
    let name = trim(req.name@);
    &&& name_ok(name)
    &&& name != "root"@
    &&& gecos_ok(trimmed_or_empty(req.gecos))
    &&& (req.uid matches Some(u) ==> u != 0)
    &&& (req.gid matches Some(g) ==> group_ref_ok(g@))
    &&& (req.home matches Some(h) ==> path_ok(h@))
    &&& (req.shell matches Some(sh) ==> shell_ok(sh@, shells))
    &&& all_group_refs_ok(group_list(req.groups))
}

/// `pw useradd` arguments for a new user.
pub open spec fn useradd_args(req: CreateUserReq) -> Seq<Seq<char>> {
    let gecos = trimmed_or_empty(req.gecos);
    let groups = group_list(req.groups);
    seq!["useradd"@, "-n"@, trim(req.name@)] + opt_num_args("-u"@, req.uid) + opt_args(
        "-g"@,
        ov(req.gid),
    ) + (if groups.len() > 0 {
        seq!["-G"@, join(groups, ","@)]
    } else {
        seq![]
    }) + (if gecos.len() > 0 {
        seq!["-c"@, gecos]
    } else {
        seq![]
    }) + opt_args("-d"@, ov(req.home)) + opt_args("-s"@, ov(req.shell)) + (if req.create_home {
        seq!["-m"@]
    } else {
        seq![]
    })
}

fn push2(args: &mut Vec<String>, a: &str, b: String)
    ensures
        final(args).deep_view() == old(args).deep_view() + seq![a@, b@],
{
    let ghost a0 = args.deep_view();
    args.push(owned(a));
    args.push(b);
    assert(args.deep_view() =~= a0 + seq![a@, b@]);
}

fn push_opt(args: &mut Vec<String>, flag: &str, v: &Option<String>)
    ensures
        final(args).deep_view() == old(args).deep_view() + opt_args(flag@, ov(*v)),
{
    match v {
        Some(x) => push2(args, flag, x.clone()),
        None => {
            assert(args.deep_view() =~= args.deep_view() + Seq::<Seq<char>>::empty());
        },
    }
}

fn push_opt_num(args: &mut Vec<String>, flag: &str, v: Option<u32>)
    ensures
        final(args).deep_view() == old(args).deep_view() + opt_num_args(flag@, v),
{
    match v {
        Some(x) => push2(args, flag, crate::num::dec_string(x as u64)),
        None => {
            assert(args.deep_view() =~= args.deep_view() + Seq::<Seq<char>>::empty());
        },
    }
}

fn check_group_refs(groups: &Vec<String>) -> (r: ApiResult<()>)
    ensures
        r is Ok <==> all_group_refs_ok(groups.deep_view()),
        name_pattern_compiles() ==> r is Ok || is_bad(r),
{
    let mut i: usize = 0;
    while i < groups.len()
        invariant
            i <= groups@.len(),
            forall|k: int| 0 <= k < i ==> group_ref_ok(#[trigger] groups.deep_view()[k]),
        decreases groups@.len() - i,
    {
        assert(groups.deep_view()[i as int] == groups@[i as int]@);
        validate_group_ref(groups[i].as_str())?;
        i += 1;
    }
    Ok(())
}

fn clone_groups(o: &Option<Vec<String>>) -> (r: Vec<String>)
    ensures
        r.deep_view() == group_list(*o),
{
    match o {
        Some(v) => {
            let mut out: Vec<String> = Vec::new();
            let mut i: usize = 0;
            while i < v.len()
                invariant
                    i <= v@.len(),
                    out.deep_view() == v.deep_view().take(i as int),
                decreases v@.len() - i,
            {
                let ghost o0 = out.deep_view();
                out.push(v[i].clone());
                assert(v.deep_view()[i as int] == v@[i as int]@);
                assert(out.deep_view() =~= o0.push(v@[i as int]@));
                assert(v.deep_view().take(i + 1) =~= v.deep_view().take(i as int).push(v@[i as int]@));
                assert(out.deep_view() =~= v.deep_view().take(i + 1));
                i += 1;
            }
            assert(v.deep_view().take(v@.len() as int) =~= v.deep_view());
            out
        },
        None => {
            let out: Vec<String> = Vec::new();
            assert(out.deep_view() =~= Seq::<Seq<char>>::empty());
            out
        },
    }
}

fn nonempty_password(p: &Option<String>) -> (r: Option<String>)
    ensures
        ov(r) == nonempty(*p),
{
    match p {
        Some(x) => {
            if x.as_str().is_empty() {
                None
            } else {
                Some(x.clone())
            }
        },
        None => None,
    }
}

fn check_new_user(req: &CreateUserReq, shells: &Vec<String>, passwd: &str) -> (r: ApiResult<String>)
    ensures
        r is Ok <==> create_user_ok(*req, shells.deep_view(), passwd@),
        name_pattern_compiles() && !new_user_fields_ok(*req, shells.deep_view()) ==> is_bad(r),
        new_user_fields_ok(*req, shells.deep_view()) && lookup_id_spec(lines(passwd@), trim(req.name@), 7)
            is Some ==> is_conflict(r, "User '"@ + trim(req.name@) + "' already exists"@),
        r matches Ok(n) ==> n@ == trim(req.name@),
        name_ok(trim(req.name@)) && trim(req.name@) == "root"@ ==> is_bad_request(
            r,
            "Cannot create user 'root'"@,
        ),
{
    let name = trim_str(req.name.as_str());
    validate_name(name.as_str())?;
    if str_eq(name.as_str(), "root") {
        return bad_request("Cannot create user 'root'");
    }
    let gecos = match &req.gecos {
        Some(g) => trim_str(g.as_str()),
        None => String::new(),
    };
    validate_gecos(gecos.as_str())?;
    match req.uid {
        Some(uid) => validate_uid(uid)?,
        None => {},
    }
    match &req.gid {
        Some(gid) => validate_group_ref(gid.as_str())?,
        None => {},
    }
    match &req.home {
        Some(home) => validate_path_str(home.as_str())?,
        None => {},
    }
    match &req.shell {
        Some(shell) => validate_shell(shell.as_str(), shells)?,
        None => {},
    }
    let groups = clone_groups(&req.groups);
    check_group_refs(&groups)?;
    if lookup_uid(passwd, name.as_str()).is_some() {
        let mut m = owned("User '");
        push_str(&mut m, name.as_str());
        push_str(&mut m, "' already exists");
        return Err(ApiError::Conflict(m));
    }
    Ok(name)
}

fn build_useradd_args(req: &CreateUserReq) -> (args: Vec<String>)
    ensures
        args.deep_view() == useradd_args(*req),
{
    let name = trim_str(req.name.as_str());
    let gecos = match &req.gecos {
        Some(g) => trim_str(g.as_str()),
        None => String::new(),
    };
    let groups = clone_groups(&req.groups);
    let mut args: Vec<String> = Vec::new();
    args.push(owned("useradd"));
    args.push(owned("-n"));
    args.push(name);
    push_opt_num(&mut args, "-u", req.uid);
    push_opt(&mut args, "-g", &req.gid);
    let ghost a0 = args.deep_view();
    if groups.len() > 0 {
        push2(&mut args, "-G", join_strings(&groups, ","));
    }
    assert(args.deep_view() =~= a0 + (if groups@.len() > 0 {
        seq!["-G"@, join(groups.deep_view(), ","@)]
    } else {
        seq![]
    }));
    let ghost a1 = args.deep_view();
    if !gecos.as_str().is_empty() {
        push2(&mut args, "-c", gecos);
    }
    assert(args.deep_view() =~= a1 + (if trimmed_or_empty(req.gecos).len() > 0 {
        seq!["-c"@, trimmed_or_empty(req.gecos)]
    } else {
        seq![]
    }));
    push_opt(&mut args, "-d", &req.home);
    push_opt(&mut args, "-s", &req.shell);
    let ghost a2 = args.deep_view();
    if req.create_home {
        args.push(owned("-m"));
    }
    assert(args.deep_view() =~= a2 + (if req.create_home {
        seq!["-m"@]
    } else {
        seq![]
    }));
    assert(args.deep_view() =~= useradd_args(*req));
    args
}

/// Checks a new user and plans `pw useradd`. `shells` are the shells
/// offered; `passwd` is the text of `/etc/passwd`.
pub fn plan_create_user(req: &CreateUserReq, shells: &Vec<String>, passwd: &str) -> (r: ApiResult<UserAddPlan>)
    ensures
        r is Ok <==> create_user_ok(*req, shells.deep_view(), passwd@),
        name_pattern_compiles() && !new_user_fields_ok(*req, shells.deep_view()) ==> is_bad(r),
        new_user_fields_ok(*req, shells.deep_view()) && lookup_id_spec(lines(passwd@), trim(req.name@), 7)
            is Some ==> is_conflict(r, "User '"@ + trim(req.name@) + "' already exists"@),
        r matches Ok(p) ==> p.name@ == trim(req.name@) && p.args.deep_view() == useradd_args(*req)
            && ov(p.password) == nonempty(req.password),
        name_ok(trim(req.name@)) && trim(req.name@) == "root"@ ==> is_bad_request(
            r,
            "Cannot create user 'root'"@,
        ),
{
    let name = check_new_user(req, shells, passwd)?;
    let args = build_useradd_args(req);
    Ok(UserAddPlan { name, args, password: nonempty_password(&req.password) })
}

/// What modifying a user runs.
#[derive(Debug, Clone)]
pub struct UserModPlan {
    /// `pw usermod` arguments.
    pub args: Vec<String>,
    /// Whether `pw usermod` runs at all: something changes, or a password
    /// is set.
    pub run: bool,
    /// The login name once the change is made.
    pub effective: String,
    /// Lock (`true`) or unlock (`false`) the account afterwards.
    pub lock: Option<bool>,
    pub is_root: bool,
    pub password: Option<String>,
    /// The audit note.
    pub detail: String,
}

/// The new login name, when the request renames the user.
pub open spec fn rename_to(name: Seq<char>, req: UpdateUserReq) -> Option<Seq<char>> {
    match req.new_name {
        Some(nn) => if trim(nn@) != name {
            Some(trim(nn@))
        } else {
            None
        },
        None => None,
    }
}

/// The checks a change to user `name` passes, in order; `uid` is the
/// user's current uid.
/// The user to change does not exist (answered NotFound).
pub open spec fn user_missing(name: Seq<char>, passwd: Seq<char>) -> bool {
    name_ok(name) && lookup_id_spec(lines(passwd), name, 7) is None
}

/// A valid new name, not `root`, is already taken (answered Conflict).
pub open spec fn user_rename_taken(name: Seq<char>, req: UpdateUserReq, passwd: Seq<char>) -> bool {
    &&& name_ok(name)
    &&& lookup_id_spec(lines(passwd), name, 7) is Some
    &&& rename_to(name, req) matches Some(nn)
    &&& name_ok(nn) && nn != "root"@ && lookup_id_spec(lines(passwd), nn, 7) is Some
}

/// The group to change does not exist (answered NotFound).
pub open spec fn group_missing(name: Seq<char>, group: Seq<char>) -> bool {
    name_ok(name) && lookup_id_spec(lines(group), name, 4) is None
}

/// A valid new group name is already taken (answered Conflict).
pub open spec fn group_rename_taken(name: Seq<char>, req: UpdateGroupReq, group: Seq<char>) -> bool {
    &&& name_ok(name)
    &&& lookup_id_spec(lines(group), name, 4) is Some
    &&& group_rename_to(name, req) matches Some(nn)
    &&& name_ok(nn) && lookup_id_spec(lines(group), nn, 4) is Some
}

pub open spec fn update_user_ok(
    name: Seq<char>,
    req: UpdateUserReq,
    passwd: Seq<char>,
    shells: Seq<Seq<char>>,
) -> bool {
    let uid = lookup_id_spec(lines(passwd), name, 7);
    let rn = rename_to(name, req);
    &&& name_ok(name)
    &&& uid is Some
    &&& (rn matches Some(nn) ==> name_ok(nn) && nn != "root"@ && lookup_id_spec(lines(passwd), nn, 7) is None)
    &&& (req.uid matches Some(u) ==> u != 0)
    &&& (uid->Some_0 < 1000 ==> rn is None && req.uid is None && req.gid is None)
    &&& (req.gid matches Some(g) ==> group_ref_ok(g@))
    &&& (req.gecos matches Some(g) ==> gecos_ok(trim(g@)))
    &&& (req.home matches Some(h) ==> path_ok(h@))
    &&& (req.shell matches Some(sh) ==> shell_ok(sh@, shells))
    &&& all_group_refs_ok(group_list(req.groups))
}

/// `pw usermod` arguments for a change to user `name`.
pub open spec fn usermod_args(name: Seq<char>, req: UpdateUserReq) -> Seq<Seq<char>> {
    seq!["usermod"@, "-n"@, name] + opt_args("-l"@, rename_to(name, req)) + opt_num_args(
        "-u"@,
        req.uid,
    ) + opt_args("-g"@, ov(req.gid)) + opt_args(
        "-c"@,
        match req.gecos {
            Some(g) => Some(trim(g@)),
            None => None,
        },
    ) + opt_args("-d"@, ov(req.home)) + opt_args("-s"@, ov(req.shell)) + (if req.groups is Some {
        seq!["-G"@, join(group_list(req.groups), ","@)]
    } else {
        seq![]
    })
}

fn rename_target(name: &str, req: &UpdateUserReq) -> (r: Option<String>)
    ensures
        ov(r) == rename_to(name@, *req),
{
    match &req.new_name {
        Some(nn) => {
            let t = trim_str(nn.as_str());
            if str_eq(t.as_str(), name) {
                None
            } else {
                Some(t)
            }
        },
        None => None,
    }
}

fn check_user_change(name: &str, req: &UpdateUserReq, passwd: &str, shells: &Vec<String>) -> (r: ApiResult<u32>)
    ensures
        r is Ok <==> update_user_ok(name@, *req, passwd@, shells.deep_view()),
        name_pattern_compiles() && !update_user_ok(name@, *req, passwd@, shells.deep_view()) && !user_missing(name@, passwd@)
            && !user_rename_taken(name@, *req, passwd@) ==> is_bad(r),
        ({
            let uid = lookup_id_spec(lines(passwd@), name@, 7);
            let rn = rename_to(name@, *req);
            name_ok(name@) && uid is Some ==> {
                &&& (rn matches Some(nn) && name_ok(nn) && nn == "root"@) ==> is_bad_request(
                    r,
                    "Cannot rename to 'root'"@,
                )
                &&& (rn matches Some(nn) && name_ok(nn) && nn != "root"@ && lookup_id_spec(lines(passwd@), nn, 7) is Some)
                    ==> is_conflict(r, "Target name already in use"@)
                &&& (uid->Some_0 < 1000 && (rn is Some || req.uid is Some || req.gid is Some) && (
                rn matches Some(nn) ==> name_ok(nn) && nn != "root"@ && lookup_id_spec(lines(passwd@), nn, 7) is None)
                    && (req.uid matches Some(u) ==> u != 0)) ==> (r matches Err(ApiError::BadRequest(_)))
            }
        }),
        r matches Ok(uid) ==> lookup_id_spec(lines(passwd@), name@, 7) == Some(uid as nat),
        name_ok(name@) && lookup_id_spec(lines(passwd@), name@, 7) is None ==> (r matches Err(
            ApiError::NotFound(m),
        ) && m@ == "User '"@ + name@ + "' not found"@),
{
    validate_name(name)?;
    let uid = match lookup_uid(passwd, name) {
        Some(u) => u,
        None => {
            let mut m = owned("User '");
            push_str(&mut m, name);
            push_str(&mut m, "' not found");
            return Err(ApiError::NotFound(m));
        },
    };
    let rn = rename_target(name, req);
    match &rn {
        Some(nn) => {
            validate_name(nn.as_str())?;
            if str_eq(nn.as_str(), "root") {
                return bad_request("Cannot rename to 'root'");
            }
            if lookup_uid(passwd, nn.as_str()).is_some() {
                return Err(ApiError::Conflict(owned("Target name already in use")));
            }
        },
        None => {},
    }
    match req.uid {
        Some(u) => validate_uid(u)?,
        None => {},
    }
    if uid < SYSTEM_ID_BOUNDARY {
        if rn.is_some() {
            return bad_request("Cannot rename a system account");
        }
        if req.uid.is_some() {
            return bad_request("Cannot change the uid of a system account");
        }
        if req.gid.is_some() {
            return bad_request("Cannot change the primary group of a system account");
        }
    }
    match &req.gid {
        Some(g) => validate_group_ref(g.as_str())?,
        None => {},
    }
    match &req.gecos {
        Some(g) => {
            let t = trim_str(g.as_str());
            validate_gecos(t.as_str())?;
        },
        None => {},
    }
    match &req.home {
        Some(h) => validate_path_str(h.as_str())?,
        None => {},
    }
    match &req.shell {
        Some(sh) => validate_shell(sh.as_str(), shells)?,
        None => {},
    }
    let groups = clone_groups(&req.groups);
    check_group_refs(&groups)?;
    Ok(uid)
}

fn build_usermod_args(name: &str, req: &UpdateUserReq) -> (args: Vec<String>)
    ensures
        args.deep_view() == usermod_args(name@, *req),
{
    let mut args: Vec<String> = Vec::new();
    args.push(owned("usermod"));
    args.push(owned("-n"));
    args.push(owned(name));
    let rn = rename_target(name, req);
    push_opt(&mut args, "-l", &rn);
    push_opt_num(&mut args, "-u", req.uid);
    push_opt(&mut args, "-g", &req.gid);
    let gecos = match &req.gecos {
        Some(g) => Some(trim_str(g.as_str())),
        None => None,
    };
    push_opt(&mut args, "-c", &gecos);
    push_opt(&mut args, "-d", &req.home);
    push_opt(&mut args, "-s", &req.shell);
    let ghost a0 = args.deep_view();
    if req.groups.is_some() {
        let groups = clone_groups(&req.groups);
        push2(&mut args, "-G", join_strings(&groups, ","));
    }
    assert(args.deep_view() =~= a0 + (if req.groups is Some {
        seq!["-G"@, join(group_list(req.groups), ","@)]
    } else {
        seq![]
    }));
    assert(args.deep_view() =~= usermod_args(name@, *req));
    args
}

/// Checks a change to user `name` and plans it. `passwd` is the text of
/// `/etc/passwd`; `shells` are the shells offered.
pub fn plan_update_user(name: &str, req: &UpdateUserReq, passwd: &str, shells: &Vec<String>) -> (r: ApiResult<UserModPlan>)
    ensures
        r is Ok <==> update_user_ok(name@, *req, passwd@, shells.deep_view()),
        name_pattern_compiles() && !update_user_ok(name@, *req, passwd@, shells.deep_view()) && !user_missing(name@, passwd@)
            && !user_rename_taken(name@, *req, passwd@) ==> is_bad(r),
        ({
            let uid = lookup_id_spec(lines(passwd@), name@, 7);
            let rn = rename_to(name@, *req);
            name_ok(name@) && uid is Some ==> {
                &&& (rn matches Some(nn) && name_ok(nn) && nn == "root"@) ==> is_bad_request(
                    r,
                    "Cannot rename to 'root'"@,
                )
                &&& (rn matches Some(nn) && name_ok(nn) && nn != "root"@ && lookup_id_spec(lines(passwd@), nn, 7) is Some)
                    ==> is_conflict(r, "Target name already in use"@)
                &&& (uid->Some_0 < 1000 && (rn is Some || req.uid is Some || req.gid is Some) && (
                rn matches Some(nn) ==> name_ok(nn) && nn != "root"@ && lookup_id_spec(lines(passwd@), nn, 7) is None)
                    && (req.uid matches Some(u) ==> u != 0)) ==> (r matches Err(ApiError::BadRequest(_)))
            }
        }),
        name_ok(name@) && lookup_id_spec(lines(passwd@), name@, 7) is None ==> (r matches Err(
            ApiError::NotFound(m),
        ) && m@ == "User '"@ + name@ + "' not found"@),
        r matches Ok(p) ==> {
            &&& p.args.deep_view() == usermod_args(name@, *req)
            &&& p.run == (p.args@.len() > 3 || nonempty(req.password) is Some)
            &&& ov(p.password) == nonempty(req.password)
            &&& p.effective@ == match rename_to(name@, *req) {
                Some(nn) => nn,
                None => name@,
            }
            &&& p.lock == req.locked
            &&& p.is_root == (lookup_id_spec(lines(passwd@), name@, 7) == Some(0nat))
            &&& p.detail@ == match rename_to(name@, *req) {
                Some(nn) => "Renamed system user '"@ + name@ + "' → '"@ + nn + "'"@,
                None => "Modified system user '"@ + name@ + "'"@,
            }
        },
{
    let uid = check_user_change(name, req, passwd, shells)?;
    let args = build_usermod_args(name, req);
    let password = nonempty_password(&req.password);
    let run = args.len() > 3 || password.is_some();
    let rn = rename_target(name, req);
    let (effective, detail) = match &rn {
        Some(nn) => {
            let mut d = owned("Renamed system user '");
            push_str(&mut d, name);
            push_str(&mut d, "' → '");
            push_str(&mut d, nn.as_str());
            push_str(&mut d, "'");
            (nn.clone(), d)
        },
        None => {
            let mut d = owned("Modified system user '");
            push_str(&mut d, name);
            push_str(&mut d, "'");
            (owned(name), d)
        },
    };
    Ok(UserModPlan { args, run, effective, lock: req.locked, is_root: uid == 0, password, detail })
}

/// Whether to lock or unlock after a change: `pw` refuses a no-op toggle,
/// so only a change of state runs; root is never locked.
pub fn lock_action(lock: Option<bool>, is_root: bool, currently_locked: bool) -> (r: ApiResult<Option<&'static str>>)
    ensures
        match lock {
            None => r matches Ok(None),
            Some(l) => if is_root && l {
                is_bad_request(r, "Refusing to lock the root account"@)
            } else if l && !currently_locked {
                r matches Ok(Some(a)) && a@ == "lock"@
            } else if !l && currently_locked {
                r matches Ok(Some(a)) && a@ == "unlock"@
            } else {
                r matches Ok(None)
            },
        },
{
    match lock {
        None => Ok(None),
        Some(l) => {
            if is_root && l {
                return bad_request("Refusing to lock the root account");
            }
            if l && !currently_locked {
                Ok(Some("lock"))
            } else if !l && currently_locked {
                Ok(Some("unlock"))
            } else {
                Ok(None)
            }
        },
    }
}

/// Checks deleting user `name` and plans `pw userdel`; system accounts are
/// refused.
pub fn plan_delete_user(name: &str, remove_home: bool, passwd: &str) -> (r: ApiResult<Vec<String>>)
    ensures
        r is Ok <==> (name_ok(name@) && (lookup_id_spec(lines(passwd@), name@, 7) matches Some(u)
            && u >= 1000)),
        r matches Ok(a) ==> a.deep_view() == seq!["userdel"@, "-n"@, name@] + if remove_home {
            seq!["-r"@]
        } else {
            seq![]
        },
        name_ok(name@) && (lookup_id_spec(lines(passwd@), name@, 7) matches Some(u) && u < 1000)
            ==> is_bad_request(r, "Refusing to delete a system account (uid < 1000)"@),
{
    validate_name(name)?;
    let uid = match lookup_uid(passwd, name) {
        Some(u) => u,
        None => {
            let mut m = owned("User '");
            push_str(&mut m, name);
            push_str(&mut m, "' not found");
            return Err(ApiError::NotFound(m));
        },
    };
    if uid < SYSTEM_ID_BOUNDARY {
        return bad_request("Refusing to delete a system account (uid < 1000)");
    }
    let mut args: Vec<String> = Vec::new();
    args.push(owned("userdel"));
    args.push(owned("-n"));
    args.push(owned(name));
    if remove_home {
        args.push(owned("-r"));
    }
    assert(args.deep_view() =~= seq!["userdel"@, "-n"@, name@] + if remove_home {
        seq!["-r"@]
    } else {
        seq![]
    });
    Ok(args)
}

// ───────────────────────── groups ─────────────────────────

pub open spec fn create_group_ok(req: CreateGroupReq, group: Seq<char>) -> bool {
    let name = trim(req.name@);
    &&& name_ok(name)
    &&& (req.gid matches Some(g) ==> g != 0)
    &&& all_group_refs_ok(group_list(req.members))
    &&& lookup_id_spec(lines(group), name, 4) is None
}

pub open spec fn groupadd_args(req: CreateGroupReq) -> Seq<Seq<char>> {
    let members = group_list(req.members);
    seq!["groupadd"@, "-n"@, trim(req.name@)] + opt_num_args("-g"@, req.gid) + if members.len() > 0 {
        seq!["-M"@, join(members, ","@)]
    } else {
        seq![]
    }
}

/// Checks a new group and plans `pw groupadd`; `group` is the text of
/// `/etc/group`.
pub fn plan_create_group(req: &CreateGroupReq, group: &str) -> (r: ApiResult<Vec<String>>)
    ensures
        r is Ok <==> create_group_ok(*req, group@),
        r matches Ok(a) ==> a.deep_view() == groupadd_args(*req),
        name_ok(trim(req.name@)) && req.gid == Some(0u32) ==> is_bad_request(
            r,
            "GID 0 (wheel) is reserved"@,
        ),
{
    let name = trim_str(req.name.as_str());
    validate_name(name.as_str())?;
    match req.gid {
        Some(g) => {
            if g == 0 {
                return bad_request("GID 0 (wheel) is reserved");
            }
        },
        None => {},
    }
    let members = clone_groups(&req.members);
    check_group_refs(&members)?;
    if lookup_gid(group, name.as_str()).is_some() {
        let mut m = owned("Group '");
        push_str(&mut m, name.as_str());
        push_str(&mut m, "' already exists");
        return Err(ApiError::Conflict(m));
    }
    let mut args: Vec<String> = Vec::new();
    args.push(owned("groupadd"));
    args.push(owned("-n"));
    args.push(name);
    push_opt_num(&mut args, "-g", req.gid);
    let ghost a0 = args.deep_view();
    if members.len() > 0 {
        push2(&mut args, "-M", join_strings(&members, ","));
    }
    assert(args.deep_view() =~= a0 + if members@.len() > 0 {
        seq!["-M"@, join(members.deep_view(), ","@)]
    } else {
        seq![]
    });
    assert(args.deep_view() =~= groupadd_args(*req));
    Ok(args)
}

pub open spec fn group_rename_to(name: Seq<char>, req: UpdateGroupReq) -> Option<Seq<char>> {
    match req.new_name {
        Some(nn) => if trim(nn@) != name {
            Some(trim(nn@))
        } else {
            None
        },
        None => None,
    }
}

pub open spec fn update_group_ok(name: Seq<char>, req: UpdateGroupReq, group: Seq<char>) -> bool {
    let gid = lookup_id_spec(lines(group), name, 4);
    let rn = group_rename_to(name, req);
    &&& name_ok(name)
    &&& gid is Some
    &&& (rn matches Some(nn) ==> name_ok(nn) && lookup_id_spec(lines(group), nn, 4) is None)
    &&& (req.gid matches Some(g) ==> g != 0)
    &&& (gid->Some_0 < 1000 ==> rn is None && req.gid is None)
    &&& all_group_refs_ok(group_list(req.members))
    &&& !(gid->Some_0 == 0 && rn is Some)
}

pub open spec fn groupmod_args(name: Seq<char>, req: UpdateGroupReq) -> Seq<Seq<char>> {
    seq!["groupmod"@, "-n"@, name] + opt_args("-l"@, group_rename_to(name, req)) + opt_num_args(
        "-g"@,
        req.gid,
    ) + if req.members is Some {
        seq!["-M"@, join(group_list(req.members), ","@)]
    } else {
        seq![]
    }
}

/// Checks a change to group `name` and plans `pw groupmod`: `None` when
/// nothing changes. `group` is the text of `/etc/group`.
pub fn plan_update_group(name: &str, req: &UpdateGroupReq, group: &str) -> (r: ApiResult<Option<Vec<String>>>)
    ensures
        r is Ok <==> update_group_ok(name@, *req, group@),
        name_pattern_compiles() && !update_group_ok(name@, *req, group@) && !group_missing(name@, group@) && !group_rename_taken(
            name@,
            *req,
            group@,
        ) ==> is_bad(r),
        ({
            let gid = lookup_id_spec(lines(group@), name@, 4);
            let rn = group_rename_to(name@, *req);
            name_ok(name@) && gid is Some ==> {
                &&& (rn matches Some(nn) && name_ok(nn) && lookup_id_spec(lines(group@), nn, 4) is Some)
                    ==> is_conflict(r, "Target group name already in use"@)
                &&& ((rn matches Some(nn) ==> name_ok(nn) && lookup_id_spec(lines(group@), nn, 4) is None)
                    && req.gid == Some(0u32)) ==> is_bad_request(r, "GID 0 (wheel) is reserved"@)
                &&& ((rn matches Some(nn) ==> name_ok(nn) && lookup_id_spec(lines(group@), nn, 4) is None)
                    && (req.gid matches Some(g) ==> g != 0) && gid->Some_0 < 1000 && (rn is Some
                    || req.gid is Some)) ==> (r matches Err(ApiError::BadRequest(_)))
            }
        }),
        r matches Ok(Some(a)) ==> a.deep_view() == groupmod_args(name@, *req) && a@.len() > 3,
        r matches Ok(None) ==> groupmod_args(name@, *req).len() == 3,
        name_ok(name@) && lookup_id_spec(lines(group@), name@, 4) is None ==> (r matches Err(
            ApiError::NotFound(m),
        ) && m@ == "Group '"@ + name@ + "' not found"@),
{
    validate_name(name)?;
    let gid = match lookup_gid(group, name) {
        Some(g) => g,
        None => {
            let mut m = owned("Group '");
            push_str(&mut m, name);
            push_str(&mut m, "' not found");
            return Err(ApiError::NotFound(m));
        },
    };
    let rn = match &req.new_name {
        Some(nn) => {
            let t = trim_str(nn.as_str());
            if str_eq(t.as_str(), name) {
                None
            } else {
                Some(t)
            }
        },
        None => None,
    };
    assert(ov(rn) == group_rename_to(name@, *req));
    match &rn {
        Some(nn) => {
            validate_name(nn.as_str())?;
            if lookup_gid(group, nn.as_str()).is_some() {
                return Err(ApiError::Conflict(owned("Target group name already in use")));
            }
        },
        None => {},
    }
    match req.gid {
        Some(g) => {
            if g == 0 {
                return bad_request("GID 0 (wheel) is reserved");
            }
        },
        None => {},
    }
    if gid < SYSTEM_ID_BOUNDARY {
        if rn.is_some() {
            return bad_request("Cannot rename a system group");
        }
        if req.gid.is_some() {
            return bad_request("Cannot change the gid of a system group");
        }
    }
    let members = clone_groups(&req.members);
    check_group_refs(&members)?;
    if gid == 0 && rn.is_some() {
        return bad_request("Refusing to rename the wheel group");
    }
    let mut args: Vec<String> = Vec::new();
    args.push(owned("groupmod"));
    args.push(owned("-n"));
    args.push(owned(name));
    push_opt(&mut args, "-l", &rn);
    push_opt_num(&mut args, "-g", req.gid);
    let ghost a0 = args.deep_view();
    if req.members.is_some() {
        push2(&mut args, "-M", join_strings(&members, ","));
    }
    assert(args.deep_view() =~= a0 + if req.members is Some {
        seq!["-M"@, join(group_list(req.members), ","@)]
    } else {
        seq![]
    });
    assert(args.deep_view() =~= groupmod_args(name@, *req));
    if args.len() > 3 {
        Ok(Some(args))
    } else {
        Ok(None)
    }
}

/// Checks deleting group `name` and plans `pw groupdel`; system groups are
/// refused.
pub fn plan_delete_group(name: &str, group: &str) -> (r: ApiResult<Vec<String>>)
    ensures
        r is Ok <==> (name_ok(name@) && (lookup_id_spec(lines(group@), name@, 4) matches Some(g)
            && g >= 1000)),
        r matches Ok(a) ==> a.deep_view() == seq!["groupdel"@, "-n"@, name@],
        name_ok(name@) && (lookup_id_spec(lines(group@), name@, 4) matches Some(g) && g < 1000)
            ==> is_bad_request(r, "Refusing to delete a system group (gid < 1000)"@),
{
    validate_name(name)?;
    let gid = match lookup_gid(group, name) {
        Some(g) => g,
        None => {
            let mut m = owned("Group '");
            push_str(&mut m, name);
            push_str(&mut m, "' not found");
            return Err(ApiError::NotFound(m));
        },
    };
    if gid < SYSTEM_ID_BOUNDARY {
        return bad_request("Refusing to delete a system group (gid < 1000)");
    }
    let mut args: Vec<String> = Vec::new();
    args.push(owned("groupdel"));
    args.push(owned("-n"));
    args.push(owned(name));
    assert(args.deep_view() =~= seq!["groupdel"@, "-n"@, name@]);
    Ok(args)
}

/// The `pw` arguments and standard input for a command that may set a
/// password: with a password, `-h 0` is added and the password, with a
/// newline, goes to standard input (never into the arguments).
fn with_password(base: &Vec<String>, password: &Option<String>) -> (r: (Vec<String>, Option<String>))
    ensures
        r.0.deep_view() == base.deep_view() + (if password is Some {
            seq!["-h"@, "0"@]
        } else {
            seq![]
        }),
        ov(r.1) == match *password {
            Some(pw) => Some(pw@ + "\n"@),
            None => None,
        },
{
    let mut args: Vec<String> = Vec::new();
    let mut i: usize = 0;
    while i < base.len()
        invariant
            i <= base@.len(),
            args.deep_view() == base.deep_view().take(i as int),
        decreases base@.len() - i,
    {
        let ghost a0 = args.deep_view();
        args.push(base[i].clone());
        assert(args.deep_view() =~= a0.push(base@[i as int]@));
        assert(base.deep_view().take(i + 1) =~= base.deep_view().take(i as int).push(base.deep_view()[i as int]));
        i += 1;
    }
    assert(base.deep_view().take(i as int) =~= base.deep_view());
    match password {
        Some(pw) => {
            let ghost a0 = args.deep_view();
            args.push(owned("-h"));
            args.push(owned("0"));
            assert(args.deep_view() =~= a0 + seq!["-h"@, "0"@]);
            let mut input = pw.clone();
            push_str(&mut input, "\n");
            (args, Some(input))
        },
        None => {
            assert(args.deep_view() =~= base.deep_view() + Seq::<Seq<char>>::empty());
            (args, None)
        },
    }
}

/// The `pw` invocation of a planned user creation: its arguments, with
/// `-h 0` added when a password is set, and what goes to its standard
/// input (the password and a newline), so that the password is never an
/// argument.
pub fn useradd_command(p: &UserAddPlan) -> (r: (Vec<String>, Option<String>))
    ensures
        r.0.deep_view() == p.args.deep_view() + (if p.password is Some {
            seq!["-h"@, "0"@]
        } else {
            seq![]
        }),
        ov(r.1) == match p.password {
            Some(pw) => Some(pw@ + "\n"@),
            None => None,
        },
{
    with_password(&p.args, &p.password)
}

// ───────────────────────── applying a user change ─────────────────────────

/// Where applying a user change stands.
#[derive(Debug, Clone, Copy, PartialEq, Eq, Structural)]
pub enum UserModStage {
    /// `pw usermod` was asked for.
    Usermod,
    /// The account's locked state was asked for.
    ReadLocked,
    /// `pw lock` or `pw unlock` was asked for.
    Lock,
    Done,
}

/// What the caller reports back.
#[derive(Debug)]
pub enum UserModEvent {
    /// How `pw usermod` went.
    Usermod(Result<(), ApiError>),
    /// Whether the account is locked now.
    Locked(bool),
    /// How `pw lock` or `pw unlock` went.
    LockRan(Result<(), ApiError>),
}

/// What the caller does next.
#[derive(Debug)]
pub enum UserModAction {
    /// Run `pw` with these arguments, feeding `stdin` when given.
    RunPw { args: Vec<String>, stdin: Option<String> },
    /// Read whether the account is locked.
    ReadLocked,
    /// The change is over, with this outcome.
    Finish(ApiResult<()>),
}

/// The locked-state part of a change, once `pw usermod` is behind it: none
/// asked, the root account refused, or the state to be read.
pub open spec fn lock_phase(p: UserModPlan, st: UserModStage, a: UserModAction) -> bool {
    match p.lock {
        None => st == UserModStage::Done && (a matches UserModAction::Finish(Ok(_))),
        Some(l) => if p.is_root && l {
            st == UserModStage::Done && (a matches UserModAction::Finish(Err(ApiError::BadRequest(m))) && m@
                == "Refusing to lock the root account"@)
        } else {
            st == UserModStage::ReadLocked && a is ReadLocked
        },
    }
}

fn enter_lock_phase(p: &UserModPlan) -> (r: (UserModStage, UserModAction))
    ensures
        lock_phase(*p, r.0, r.1),
{
    match p.lock {
        None => (UserModStage::Done, UserModAction::Finish(Ok(()))),
        Some(l) => {
            if p.is_root && l {
                (UserModStage::Done, UserModAction::Finish(bad_request("Refusing to lock the root account")))
            } else {
                (UserModStage::ReadLocked, UserModAction::ReadLocked)
            }
        },
    }
}

impl UserModPlan {
    /// The first step of applying the change: `pw usermod` when it runs
    /// (see `run`), with the password on standard input; else straight to
    /// the locked state.
    pub fn start_apply(&self) -> (r: (UserModStage, UserModAction))
        ensures
            self.run ==> r.0 == UserModStage::Usermod && (r.1 matches UserModAction::RunPw { args, stdin }
                && args.deep_view() == self.args.deep_view() + (if self.password is Some {
                seq!["-h"@, "0"@]
            } else {
                seq![]
            }) && ov(stdin) == match self.password {
                Some(pw) => Some(pw@ + "\n"@),
                None => None,
            }),
            !self.run ==> lock_phase(*self, r.0, r.1),
    {
        if self.run {
            let (args, stdin) = with_password(&self.args, &self.password);
            (UserModStage::Usermod, UserModAction::RunPw { args, stdin })
        } else {
            enter_lock_phase(self)
        }
    }

    /// The next step once the caller reports `ev` for `stage`. A failed
    /// `pw usermod` ends the change with its error, before any lock; the
    /// root account is refused a lock after the other changes are made;
    /// `pw lock` / `pw unlock` runs only when the state changes.
    pub fn step_apply(&self, stage: UserModStage, ev: UserModEvent) -> (r: (UserModStage, UserModAction))
        requires
            stage == UserModStage::Usermod ==> ev is Usermod,
            stage == UserModStage::ReadLocked ==> ev is Locked && self.lock is Some,
            stage == UserModStage::Lock ==> ev is LockRan,
            stage != UserModStage::Done,
        ensures
            match ev {
                UserModEvent::Usermod(Err(e)) => r.0 == UserModStage::Done && (r.1 matches UserModAction::Finish(
                    Err(e2),
                ) && e2 == e),
                UserModEvent::Usermod(Ok(_)) => lock_phase(*self, r.0, r.1),
                UserModEvent::Locked(now) => {
                    let l = self.lock->Some_0;
                    if l != now {
                        r.0 == UserModStage::Lock && (r.1 matches UserModAction::RunPw { args, stdin }
                            && stdin is None && args.deep_view() == seq![
                            if l {
                                "lock"@
                            } else {
                                "unlock"@
                            },
                            self.effective@,
                        ])
                    } else {
                        r.0 == UserModStage::Done && (r.1 matches UserModAction::Finish(Ok(_)))
                    }
                },
                UserModEvent::LockRan(res) => r.0 == UserModStage::Done && (r.1 matches UserModAction::Finish(
                    res2,
                ) && res2 == res),
            },
    {
        match ev {
            UserModEvent::Usermod(Err(e)) => (UserModStage::Done, UserModAction::Finish(Err(e))),
            UserModEvent::Usermod(Ok(())) => enter_lock_phase(self),
            UserModEvent::Locked(now) => {
                let l = match self.lock {
                    Some(l) => l,
                    None => false,
                };
                if l != now {
                    let mut args: Vec<String> = Vec::new();
                    args.push(owned(if l { "lock" } else { "unlock" }));
                    args.push(self.effective.clone());
                    assert(args.deep_view() =~= seq![
                        if l {
                            "lock"@
                        } else {
                            "unlock"@
                        },
                        self.effective@,
                    ]);
                    (UserModStage::Lock, UserModAction::RunPw { args, stdin: None })
                } else {
                    (UserModStage::Done, UserModAction::Finish(Ok(())))
                }
            },
            UserModEvent::LockRan(res) => (UserModStage::Done, UserModAction::Finish(res)),
        }
    }
}

} // verus!
