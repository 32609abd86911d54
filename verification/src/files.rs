//! File manager requests and listings.
use vstd::prelude::*;
use crate::error::{ApiError, ApiResult, bad_request, is_bad_request};
use crate::num::{dec, dec_string, parse_u32, parse_unsigned};
use crate::text::{
    byte_len, bytes_exceed, contains_char, join, join_strings, lines, owned, push_char, push_str,
    split_char, split_lines, split_str, starts_with, starts_with_str, str_eq,
};

verus! {

/// A path named in a query string.
#[derive(Debug, Clone)]
pub struct PathQuery {
    pub path: String,
}

/// A rename.
#[derive(Debug, Clone)]
pub struct RenameQuery {
    pub from: String,
    pub to: String,
}

/// Where an upload goes.
#[derive(Debug, Clone)]
pub struct UploadQuery {
    pub path: String,
    pub filename: String,
}

/// One directory entry.
#[derive(Debug, Clone)]
pub struct DirEntry {
    pub name: String,
    pub path: String,
    pub is_dir: bool,
    pub is_file: bool,
    pub is_symlink: bool,
    pub size: u64,
    pub modified: i64,
    pub mode: u32,
    pub permissions: String,
    pub uid: u32,
    pub gid: u32,
    pub user: String,
    pub group: String,
}

/// Everything `stat` tells about a path.
#[derive(Debug, Clone)]
pub struct FileInfo {
    pub path: String,
    pub name: String,
    pub parent: String,
    pub is_dir: bool,
    pub is_file: bool,
    pub is_symlink: bool,
    pub symlink_target: Option<String>,
    pub size: u64,
    pub modified: i64,
    pub accessed: i64,
    pub changed: i64,
    pub mode: u32,
    pub permissions: String,
    pub uid: u32,
    pub gid: u32,
    pub user: String,
    pub group: String,
    pub nlink: u64,
    pub inode: u64,
    pub blocks: u64,
    pub blksize: u64,
}

/// New permission bits.
#[derive(Debug, Clone)]
pub struct ChmodBody {
    pub mode: u32,
}

/// New owner and group.
#[derive(Debug, Clone)]
pub struct ChownBody {
    pub uid: Option<u32>,
    pub gid: Option<u32>,
    pub no_follow: bool,
}

/// A user or group name with its id.
#[derive(Debug, Clone)]
pub struct SystemAccount {
    pub name: String,
    pub id: u32,
}

/// All users and groups.
#[derive(Debug, Clone)]
pub struct SystemAccounts {
    pub users: Vec<SystemAccount>,
    pub groups: Vec<SystemAccount>,
}


// ───────────────────────── paths ─────────────────────────

/// The components kept after `.` and `..` are resolved (`..` at the root
/// stays at the root).
pub open spec fn resolve_parts(parts: Seq<Seq<char>>) -> Seq<Seq<char>>
    decreases parts.len(),
{
    if parts.len() == 0 {
        seq![]
    } else {
        let kept = resolve_parts(parts.drop_last());
        let p = parts.last();
        if p.len() == 0 || p == "."@ {
            kept
        } else if p == ".."@ {
            if kept.len() > 0 {
                kept.drop_last()
            } else {
                kept
            }
        } else {
            kept.push(p)
        }
    }
}

/// Why a path is refused, if it is.
pub open spec fn path_error(raw: Seq<char>) -> Option<Seq<char>> {
    if raw.len() == 0 || !starts_with(raw, "/"@) {
        Some("path must be absolute"@)
    } else if raw.contains('\0') || raw.contains('\n') {
        Some("path contains invalid characters"@)
    } else {
        None
    }
}

/// An absolute path written with `.` and `..` resolved and repeated `/`
/// collapsed.
pub open spec fn normalized(raw: Seq<char>) -> Seq<char> {
    "/"@ + join(resolve_parts(split_char(raw, '/')), "/"@)
}

pub fn normalize(raw: &str) -> (r: ApiResult<String>)
    ensures
        match path_error(raw@) {
            Some(m) => is_bad_request(r, m),
            None => r matches Ok(p) && p@ == normalized(raw@),
        },
{
    proof {
        reveal_strlit(".");
        reveal_strlit("..");
    }
    if raw.is_empty() || !starts_with_str(raw, "/") {
        return bad_request("path must be absolute");
    }
    if contains_char(raw, '\0') || contains_char(raw, '\n') {
        return bad_request("path contains invalid characters");
    }
    let parts = split_str(raw, '/');
    let ghost pv = parts.deep_view();
    let mut kept: Vec<String> = Vec::new();
    let mut i: usize = 0;
    assert(pv.take(0) =~= Seq::<Seq<char>>::empty());
    assert(kept.deep_view() =~= Seq::<Seq<char>>::empty());
    while i < parts.len()
        invariant
            i <= parts@.len() == pv.len(),
            pv == parts.deep_view(),
            kept.deep_view() == resolve_parts(pv.take(i as int)),
        decreases parts@.len() - i,
    {
        proof {
            reveal_strlit(".");
            reveal_strlit("..");
        }
        assert(pv.take(i + 1).drop_last() =~= pv.take(i as int));
        assert(pv.take(i + 1).last() == parts@[i as int]@);
        let p = parts[i].as_str();
        let ghost o = kept.deep_view();
        if p.is_empty() || str_eq(p, ".") {
        } else if str_eq(p, "..") {
            if kept.len() > 0 {
                let _ = kept.pop();
                assert(kept.deep_view() =~= o.drop_last());
            }
        } else {
            kept.push(owned(p));
            assert(kept.deep_view() =~= o.push(p@));
        }
        i += 1;
    }
    assert(pv.take(i as int) =~= pv);
    let mut out = owned("/");
    let j = join_strings(&kept, "/");
    push_str(&mut out, j.as_str());
    Ok(out)
}

/// Why a new file name is refused, if it is.
pub open spec fn name_error(name: Seq<char>) -> Option<Seq<char>> {
    if name.len() == 0 || byte_len(name) > 255 {
        Some("invalid name length"@)
    } else if name == "."@ || name == ".."@ || name.contains('/') || name.contains('\0') {
        Some("invalid name"@)
    } else {
        None
    }
}

pub fn validate_name_component(name: &str) -> (r: ApiResult<()>)
    ensures
        match name_error(name@) {
            Some(m) => is_bad_request(r, m),
            None => r is Ok,
        },
{
    if name.is_empty() || bytes_exceed(name, 255) {
        return bad_request("invalid name length");
    }
    if str_eq(name, ".") || str_eq(name, "..") || contains_char(name, '/') || contains_char(
        name,
        '\0',
    ) {
        return bad_request("invalid name");
    }
    Ok(())
}

// ───────────────────────── modes ─────────────────────────

pub open spec fn bit_set(mode: u32, mask: u32) -> bool {
    mode & mask != 0
}

/// `r`, `w` and the execute letter of one class of permissions: `s`/`S` (or
/// `t`/`T`) when the special bit is set, with or without execute.
pub open spec fn perm_triple(mode: u32, r: u32, w: u32, x: u32, special: u32, on: char, off: char) -> Seq<char> {
    seq![
        if bit_set(mode, r) {
            'r'
        } else {
            '-'
        },
        if bit_set(mode, w) {
            'w'
        } else {
            '-'
        },
        if bit_set(mode, special) {
            if bit_set(mode, x) {
                on
            } else {
                off
            }
        } else if bit_set(mode, x) {
            'x'
        } else {
            '-'
        },
    ]
}

/// An `ls -l` permission string: the type character, then owner, group
/// and other permissions with setuid, setgid and sticky bits.
pub open spec fn perm_spec(type_ch: char, mode: u32) -> Seq<char> {
    seq![type_ch] + perm_triple(mode, 0o400, 0o200, 0o100, 0o4000, 's', 'S') + perm_triple(
        mode,
        0o40,
        0o20,
        0o10,
        0o2000,
        's',
        'S',
    ) + perm_triple(mode, 0o4, 0o2, 0o1, 0o1000, 't', 'T')
}

fn push_triple(s: &mut String, mode: u32, r: u32, w: u32, x: u32, special: u32, on: char, off: char)
    ensures
        final(s)@ == old(s)@ + perm_triple(mode, r, w, x, special, on, off),
{
    let ghost s0 = s@;
    push_char(s, if mode & r != 0 { 'r' } else { '-' });
    push_char(s, if mode & w != 0 { 'w' } else { '-' });
    let c = if mode & special != 0 {
        if mode & x != 0 {
            on
        } else {
            off
        }
    } else if mode & x != 0 {
        'x'
    } else {
        '-'
    };
    push_char(s, c);
    assert(s@ =~= s0 + perm_triple(mode, r, w, x, special, on, off));
}

pub fn perm_string(type_ch: char, mode: u32) -> (r: String)
    ensures
        r@ == perm_spec(type_ch, mode),
{
    let mut s = String::new();
    push_char(&mut s, type_ch);
    push_triple(&mut s, mode, 0o400, 0o200, 0o100, 0o4000, 's', 'S');
    push_triple(&mut s, mode, 0o40, 0o20, 0o10, 0o2000, 's', 'S');
    push_triple(&mut s, mode, 0o4, 0o2, 0o1, 0o1000, 't', 'T');
    assert(s@ =~= perm_spec(type_ch, mode));
    s
}

/// The type character of an entry: directory, symbolic link, or by the
/// file-type bits of its mode.
pub open spec fn type_char_spec(is_dir: bool, is_symlink: bool, mode: u32) -> char {
    if is_dir {
        'd'
    } else if is_symlink {
        'l'
    } else {
        let t = mode & 0o170000;
        if t == 0o020000 {
            'c'
        } else if t == 0o060000 {
            'b'
        } else if t == 0o010000 {
            'p'
        } else if t == 0o140000 {
            's'
        } else {
            '-'
        }
    }
}

pub fn type_char(is_dir: bool, is_symlink: bool, mode: u32) -> (c: char)
    ensures
        c == type_char_spec(is_dir, is_symlink, mode),
{
    if is_dir {
        'd'
    } else if is_symlink {
        'l'
    } else {
        match mode & 0o170000 {
            0o020000 => 'c',
            0o060000 => 'b',
            0o010000 => 'p',
            0o140000 => 's',
            _ => '-',
        }
    }
}

// ───────────────────────── owners ─────────────────────────

/// An id → name list from `/etc/passwd` or `/etc/group` text: every line
/// with at least three `:` fields and a numeric third field. With
/// `first_wins` the first name of an id is kept, else the last.
pub open spec fn id_names(ls: Seq<Seq<char>>, first_wins: bool) -> Seq<(u32, Seq<char>)>
    decreases ls.len(),
{
    if ls.len() == 0 {
        seq![]
    } else {
        let m = id_names(ls.drop_last(), first_wins);
        let cols = split_char(ls.last(), ':');
        if cols.len() >= 3 {
            match parse_unsigned(cols[2], u32::MAX as nat) {
                Some(id) => match find_id(m, id as u32) {
                    Some(i) => if first_wins {
                        m
                    } else {
                        m.update(i, (id as u32, cols[0]))
                    },
                    None => m.push((id as u32, cols[0])),
                },
                None => m,
            }
        } else {
            m
        }
    }
}

pub open spec fn find_id(m: Seq<(u32, Seq<char>)>, id: u32) -> Option<int>
    decreases m.len(),
{
    if m.len() == 0 {
        None
    } else if m[0].0 == id {
        Some(0)
    } else {
        match find_id(m.drop_first(), id) {
            Some(i) => Some(i + 1),
            None => None,
        }
    }
}

proof fn lemma_find_id(m: Seq<(u32, Seq<char>)>, id: u32, i: int)
    requires
        0 <= i <= m.len(),
        forall|k: int| 0 <= k < i ==> m[k].0 != id,
        i == m.len() || m[i].0 == id,
    ensures
        find_id(m, id) == if i == m.len() {
            None::<int>
        } else {
            Some(i)
        },
    decreases i,
{
    if i > 0 {
        let t = m.drop_first();
        assert forall|k: int| 0 <= k < i - 1 implies t[k].0 != id by {
            assert(t[k] == m[k + 1]);
        }
        if i < m.len() {
            assert(t[i - 1] == m[i]);
        }
        lemma_find_id(t, id, i - 1);
    }
}

pub open spec fn ids_view(m: Seq<(u32, String)>) -> Seq<(u32, Seq<char>)> {
    m.map_values(|p: (u32, String)| (p.0, p.1@))
}

fn id_index(m: &Vec<(u32, String)>, id: u32) -> (r: Option<usize>)
    ensures
        match r {
            Some(i) => find_id(ids_view(m@), id) == Some(i as int) && i < m@.len(),
            None => find_id(ids_view(m@), id) is None,
        },
{
    let ghost mv = ids_view(m@);
    let mut j: usize = 0;
    while j < m.len()
        invariant
            j <= m@.len() == mv.len(),
            mv == ids_view(m@),
            forall|k: int| 0 <= k < j ==> mv[k].0 != id,
        decreases m@.len() - j,
    {
        if m[j].0 == id {
            proof {
                lemma_find_id(mv, id, j as int);
            }
            return Some(j);
        }
        j += 1;
    }
    proof {
        lemma_find_id(mv, id, j as int);
    }
    None
}

/// The id → name list of a passwd (`first_wins`: root before toor) or
/// group file.
pub fn parse_id_names(content: &str, first_wins: bool) -> (r: Vec<(u32, String)>)
    ensures
        ids_view(r@) == id_names(lines(content@), first_wins),
{
    let ls = split_lines(content);
    let ghost lv = ls.deep_view();
    let mut m: Vec<(u32, String)> = Vec::new();
    let mut i: usize = 0;
    assert(lv.take(0) =~= Seq::<Seq<char>>::empty());
    assert(ids_view(m@) =~= Seq::<(u32, Seq<char>)>::empty());
    while i < ls.len()
        invariant
            i <= ls@.len() == lv.len(),
            lv == ls.deep_view(),
            ids_view(m@) == id_names(lv.take(i as int), first_wins),
        decreases ls@.len() - i,
    {
        assert(lv.take(i + 1).drop_last() =~= lv.take(i as int));
        assert(lv.take(i + 1).last() == ls@[i as int]@);
        let cols = split_str(ls[i].as_str(), ':');
        let ghost cv = cols.deep_view();
        if cols.len() >= 3 {
            assert(cv[2] == cols@[2]@ && cv[0] == cols@[0]@);
            match parse_u32(cols[2].as_str()) {
                Some(id) => {
                    let ghost o = ids_view(m@);
                    let ghost row = (id, cv[0]);
                    match id_index(&m, id) {
                        Some(k) => {
                            if !first_wins {
                                let _old = m.remove(k);
                                m.insert(k, (id, cols[0].clone()));
                                assert(ids_view(m@) =~= o.update(k as int, row));
                            }
                        },
                        None => {
                            m.push((id, cols[0].clone()));
                            assert(ids_view(m@) =~= o.push(row));
                        },
                    }
                },
                None => {},
            }
        }
        i += 1;
    }
    assert(lv.take(i as int) =~= lv);
    m
}

/// The user name of a uid (from the passwd list), or the uid in decimal.
pub fn user_of(users: &Vec<(u32, String)>, uid: u32) -> (r: String)
    ensures
        r@ == match find_id(ids_view(users@), uid) {
            Some(i) => ids_view(users@)[i].1,
            None => dec(uid as nat),
        },
{
    name_of(users, uid)
}

/// The group name of a gid (from the group list), or the gid in decimal.
pub fn group_of(groups: &Vec<(u32, String)>, gid: u32) -> (r: String)
    ensures
        r@ == match find_id(ids_view(groups@), gid) {
            Some(i) => ids_view(groups@)[i].1,
            None => dec(gid as nat),
        },
{
    name_of(groups, gid)
}

/// The name of an id, or the id in decimal when it has none.
fn name_of(m: &Vec<(u32, String)>, id: u32) -> (r: String)
    ensures
        r@ == match find_id(ids_view(m@), id) {
            Some(i) => ids_view(m@)[i].1,
            None => dec(id as nat),
        },
{
    match id_index(m, id) {
        Some(i) => m[i].1.clone(),
        None => dec_string(id as u64),
    }
}

pub fn default_true() -> (r: bool)
    ensures
        r,
{
    true
}

} // verus!
