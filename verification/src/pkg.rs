//! Packages and repositories.
use vstd::prelude::*;
use crate::error::{ApiError, ApiResult, ErrView, bad_request, err_view, is_bad_request};
use crate::num::{dec, dec_string, parse_i64, parse_signed64};
use crate::pattern::{regex_is_match, regex_match};
use crate::text::{
    before_char, before_char_str, byte_len, bytes_exceed, contains_str, contains_sub, lines,
    owned, push_str, split_char, split_lines, split_str, splitn_char, splitn_str, starts_with,
    starts_with_str, str_eq, trim, trim_str,
};

verus! {

/// An installed package as listed.
#[derive(Debug, Clone)]
pub struct PackageSummary {
    pub name: String,
    pub version: String,
    pub origin: String,
    pub comment: String,
    pub automatic: bool,
    pub size: String,
    pub homepage: String,
    pub maintainer: String,
    pub install_timestamp: i64,
}

/// A dependency.
#[derive(Debug, Clone)]
pub struct DepInfo {
    pub name: String,
    pub version: String,
}

/// An installed package in full.
#[derive(Debug, Clone)]
pub struct PackageDetail {
    pub name: String,
    pub version: String,
    pub origin: String,
    pub prefix: String,
    pub comment: String,
    pub description: String,
    pub homepage: String,
    pub maintainer: String,
    pub automatic: bool,
    pub locked: bool,
    pub vital: bool,
    pub size_bytes: i64,
    pub arch: String,
    pub abi: String,
    pub repository: String,
    pub install_timestamp: i64,
    pub categories: Vec<String>,
    pub licenses: Vec<String>,
    pub license_logic: String,
    pub dependencies: Vec<DepInfo>,
    pub reverse_dependencies: Vec<DepInfo>,
    pub messages: Vec<String>,
}

/// A file a package installed.
#[derive(Debug, Clone)]
pub struct PackageFile {
    pub path: String,
    pub owner: Option<String>,
    pub group: Option<String>,
    pub mode: Option<String>,
}

/// A package found in a repository.
#[derive(Debug, Clone)]
pub struct SearchResult {
    pub name: String,
    pub version: String,
    pub origin: String,
    pub comment: String,
    pub size: String,
}

/// Where a background package task stands.
#[derive(Debug, Clone, Copy, PartialEq, Eq)]
pub enum TaskStatus {
    Running,
    Done,
    Failed,
}

/// A background package task and its output.
#[derive(Debug, Clone)]
pub struct PkgTask {
    pub id: String,
    pub action: String,
    pub packages: Vec<String>,
    pub status: TaskStatus,
    pub exit_code: Option<i32>,
    pub lines: Vec<String>,
    pub created_at: i64,
}

/// A name filter for the package list.
#[derive(Debug, Clone)]
pub struct ListQuery {
    pub filter: Option<String>,
}

/// A repository search.
#[derive(Debug, Clone)]
pub struct SearchQuery {
    pub q: String,
}

/// Packages to install.
#[derive(Debug, Clone)]
pub struct InstallRequest {
    pub packages: Vec<String>,
}

/// Packages to delete.
#[derive(Debug, Clone)]
pub struct DeleteRequest {
    pub packages: Vec<String>,
    pub recursive: bool,
}

/// An action to preview.
#[derive(Debug, Clone)]
pub struct PreviewRequest {
    pub action: String,
    pub packages: Vec<String>,
}

/// What an action would install and delete.
#[derive(Debug, Clone)]
pub struct PreviewResult {
    pub install: Vec<String>,
    pub delete: Vec<String>,
}

/// The token that authorises a task's output stream.
#[derive(Debug, Clone)]
pub struct StreamParams {
    token: String,
}

/// A repository definition.
#[derive(Debug, Clone)]
pub struct RepoConfig {
    pub name: String,
    pub url: String,
    pub enabled: bool,
    pub mirror_type: String,
    pub signature_type: String,
    pub fingerprints: Option<String>,
    pub pubkey: Option<String>,
    pub priority: i64,
    pub ip_version: i64,
    pub is_system_origin: bool,
}

/// A repository configuration file.
#[derive(Debug, Clone)]
pub struct RepoFile {
    pub path: String,
    pub filename: String,
    pub is_system: bool,
    pub repos: Vec<RepoConfig>,
}

/// A repository as submitted.
#[derive(Debug, Clone)]
pub struct RepoInput {
    pub name: String,
    pub url: String,
    pub enabled: bool,
    pub mirror_type: Option<String>,
    pub signature_type: Option<String>,
    pub fingerprints: Option<String>,
    pub pubkey: Option<String>,
    pub priority: Option<i64>,
    pub ip_version: Option<i64>,
}

/// A repository to add, and its file.
#[derive(Debug, Clone)]
pub struct CreateRepoInput {
    pub filename: String,
    pub repo: RepoInput,
}

/// New settings of a repository.
#[derive(Debug, Clone)]
pub struct UpdateRepoRequest {
    pub file: String,
    pub url: String,
    pub enabled: bool,
    pub mirror_type: Option<String>,
    pub signature_type: Option<String>,
    pub fingerprints: Option<String>,
    pub pubkey: Option<String>,
    pub priority: Option<i64>,
    pub ip_version: Option<i64>,
}

/// The file of a repository to delete.
#[derive(Debug, Clone)]
pub struct DeleteRepoParams {
    pub file: Option<String>,
}


// ───────────────────────── validation ─────────────────────────

/// A package name: 1 to 256 bytes matching `^[a-zA-Z0-9_+.{}@-]+$`.
pub open spec fn pkg_name_ok(name: Seq<char>) -> bool {
    0 < byte_len(name) <= 256 && regex_match(r"^[a-zA-Z0-9_+.{}@-]+$"@, name) == Some(true)
}

pub fn validate_name(name: &str) -> (r: ApiResult<()>)
    ensures
        r is Ok <==> pkg_name_ok(name@),
        !(0 < byte_len(name@) <= 256) || regex_match(r"^[a-zA-Z0-9_+.{}@-]+$"@, name@) == Some(false)
            ==> is_bad_request(r, "invalid package name"@),
{
    proof {
        crate::text::lemma_byte_len_zero(name@);
    }
    if name.is_empty() || bytes_exceed(name, 256) {
        return bad_request("invalid package name");
    }
    match regex_is_match(r"^[a-zA-Z0-9_+.{}@-]+$", name) {
        Some(true) => Ok(()),
        Some(false) => bad_request("invalid package name"),
        None => Err(ApiError::Internal(owned("package name pattern does not compile"))),
    }
}

/// At least one name, every one valid.
pub fn validate_names(names: &Vec<String>) -> (r: ApiResult<()>)
    ensures
        r is Ok <==> names@.len() > 0 && forall|i: int|
            0 <= i < names@.len() ==> pkg_name_ok(#[trigger] names@[i]@),
        names@.len() == 0 ==> is_bad_request(r, "no packages specified"@),
{
    if names.len() == 0 {
        return bad_request("no packages specified");
    }
    let mut i: usize = 0;
    while i < names.len()
        invariant
            i <= names@.len(),
            forall|k: int| 0 <= k < i ==> pkg_name_ok(#[trigger] names@[k]@),
        decreases names@.len() - i,
    {
        match validate_name(names[i].as_str()) {
            Err(e) => {
                return Err(e);
            },
            Ok(()) => {},
        }
        i += 1;
    }
    Ok(())
}

/// A search pattern: 1 to 256 bytes matching `^[a-zA-Z0-9_+.{}@*?-]+$`.
pub open spec fn search_ok(p: Seq<char>) -> bool {
    0 < byte_len(p) <= 256 && regex_match(r"^[a-zA-Z0-9_+.{}@*?-]+$"@, p) == Some(true)
}

pub fn validate_search(pattern: &str) -> (r: ApiResult<()>)
    ensures
        r is Ok <==> search_ok(pattern@),
        !(0 < byte_len(pattern@) <= 256) || regex_match(r"^[a-zA-Z0-9_+.{}@*?-]+$"@, pattern@)
            == Some(false) ==> is_bad_request(r, "invalid search pattern"@),
{
    proof {
        crate::text::lemma_byte_len_zero(pattern@);
    }
    if pattern.is_empty() || bytes_exceed(pattern, 256) {
        return bad_request("invalid search pattern");
    }
    match regex_is_match(r"^[a-zA-Z0-9_+.{}@*?-]+$", pattern) {
        Some(true) => Ok(()),
        Some(false) => bad_request("invalid search pattern"),
        None => Err(ApiError::Internal(owned("search pattern does not compile"))),
    }
}

// ───────────────────────── `pkg query` output ─────────────────────────

/// The error of a line with the wrong number of tab-separated fields.
pub open spec fn tsv_error(expected: nat, got: nat) -> Seq<char> {
    "expected "@ + dec(expected) + " fields, got "@ + dec(got)
}

/// The tab-separated fields of a line, exactly `expected` of them.
pub open spec fn tsv(line: Seq<char>, expected: nat) -> Result<Seq<Seq<char>>, Seq<char>> {
    let f = split_char(line, '\t');
    if f.len() == expected {
        Ok(f)
    } else {
        Err(tsv_error(expected, f.len()))
    }
}

pub fn parse_tsv(line: &str, expected: usize) -> (r: ApiResult<Vec<String>>)
    ensures
        match tsv(line@, expected as nat) {
            Ok(f) => r matches Ok(v) && v.deep_view() == f,
            Err(m) => r matches Err(ApiError::Internal(e)) && e@ == m,
        },
{
    let f = split_str(line, '\t');
    if f.len() != expected {
        let mut m = owned("expected ");
        push_str(&mut m, dec_string(expected as u64).as_str());
        push_str(&mut m, " fields, got ");
        push_str(&mut m, dec_string(f.len() as u64).as_str());
        return Err(ApiError::Internal(m));
    }
    Ok(f)
}

/// `name<TAB>version` lines; blank lines and lines with another number of
/// fields skipped.
pub open spec fn dep_rows(ls: Seq<Seq<char>>) -> Seq<(Seq<char>, Seq<char>)>
    decreases ls.len(),
{
    if ls.len() == 0 {
        seq![]
    } else {
        let rest = dep_rows(ls.drop_last());
        let f = split_char(ls.last(), '\t');
        if ls.last().len() > 0 && f.len() == 2 {
            rest.push((f[0], f[1]))
        } else {
            rest
        }
    }
}

pub open spec fn deps_view(ds: Seq<DepInfo>) -> Seq<(Seq<char>, Seq<char>)> {
    ds.map_values(|d: DepInfo| (d.name@, d.version@))
}

pub fn parse_dep_list(output: &str) -> (r: Vec<DepInfo>)
    ensures
        deps_view(r@) == dep_rows(lines(output@)),
{
    let ls = split_lines(output);
    let ghost lv = ls.deep_view();
    let mut out: Vec<DepInfo> = Vec::new();
    let mut i: usize = 0;
    assert(deps_view(out@) =~= dep_rows(lv.take(0)));
    while i < ls.len()
        invariant
            i <= ls@.len() == lv.len(),
            lv == ls.deep_view(),
            deps_view(out@) == dep_rows(lv.take(i as int)),
        decreases ls@.len() - i,
    {
        assert(lv.take(i + 1).drop_last() =~= lv.take(i as int));
        assert(lv.take(i + 1).last() == ls@[i as int]@);
        if !ls[i].as_str().is_empty() {
            let f = split_str(ls[i].as_str(), '\t');
            if f.len() == 2 {
                let ghost fv = f.deep_view();
                assert(fv[0] == f@[0]@ && fv[1] == f@[1]@);
                let ghost o = out@;
                out.push(DepInfo { name: f[0].clone(), version: f[1].clone() });
                assert(deps_view(out@) =~= deps_view(o).push((fv[0], fv[1])));
            }
        }
        i += 1;
    }
    assert(lv.take(i as int) =~= lv);
    out
}

/// `s.parse::<i64>().unwrap_or(0)`.
pub open spec fn i64_or_zero(s: Seq<char>) -> i64 {
    match parse_signed64(s) {
        Some(n) => n as i64,
        None => 0,
    }
}

/// A package list line's nine fields: name, version, origin, comment,
/// automatic (`1`), flat size, homepage, maintainer, install time.
pub open spec fn summary_is(p: PackageSummary, f: Seq<Seq<char>>) -> bool {
    &&& f.len() == 9
    &&& p.name@ == f[0] && p.version@ == f[1] && p.origin@ == f[2] && p.comment@ == f[3]
    &&& p.automatic == (f[4] == "1"@)
    &&& p.size@ == f[5] && p.homepage@ == f[6] && p.maintainer@ == f[7]
    &&& p.install_timestamp == i64_or_zero(f[8])
}

/// The rows of `pkg query` output with `n` fields: blank lines skipped,
/// the first line with another count is the error.
pub open spec fn tsv_rows(ls: Seq<Seq<char>>, n: nat) -> Result<Seq<Seq<Seq<char>>>, Seq<char>>
    decreases ls.len(),
{
    if ls.len() == 0 {
        Ok(seq![])
    } else {
        match tsv_rows(ls.drop_last(), n) {
            Err(m) => Err(m),
            Ok(rows) => if ls.last().len() == 0 {
                Ok(rows)
            } else {
                match tsv(ls.last(), n) {
                    Ok(f) => Ok(rows.push(f)),
                    Err(m) => Err(m),
                }
            },
        }
    }
}

proof fn lemma_tsv_rows_err(ls: Seq<Seq<char>>, n: nat, k: int)
    requires
        0 <= k <= ls.len(),
        tsv_rows(ls.take(k), n) is Err,
    ensures
        tsv_rows(ls, n) == tsv_rows(ls.take(k), n),
    decreases ls.len() - k,
{
    if k < ls.len() {
        assert(ls.take(k + 1).drop_last() =~= ls.take(k));
        lemma_tsv_rows_err(ls, n, k + 1);
    } else {
        assert(ls.take(k) =~= ls);
    }
}

fn summary_from(f: &Vec<String>) -> (p: PackageSummary)
    requires
        f@.len() == 9,
    ensures
        summary_is(p, f.deep_view()),
{
    let ghost fv = f.deep_view();
    assert(forall|k: int| 0 <= k < 9 ==> fv[k] == #[trigger] f@[k]@);
    let ts = match parse_i64(f[8].as_str()) {
        Some(n) => n,
        None => 0,
    };
    PackageSummary {
        name: f[0].clone(),
        version: f[1].clone(),
        origin: f[2].clone(),
        comment: f[3].clone(),
        automatic: str_eq(f[4].as_str(), "1"),
        size: f[5].clone(),
        homepage: f[6].clone(),
        maintainer: f[7].clone(),
        install_timestamp: ts,
    }
}

/// The installed packages of `pkg query '%n\t%v\t%o\t%c\t%a\t%sh\t%w\t%m\t%t'`
/// output, or `Internal` at the first line without nine fields.
pub fn parse_package_list(output: &str) -> (r: ApiResult<Vec<PackageSummary>>)
    ensures
        match tsv_rows(lines(output@), 9) {
            Ok(rows) => r matches Ok(ps) && ps@.len() == rows.len() && forall|i: int|
                0 <= i < rows.len() ==> summary_is(#[trigger] ps@[i], rows[i]),
            Err(m) => r matches Err(ApiError::Internal(e)) && e@ == m,
        },
{
    let ls = split_lines(output);
    let ghost lv = ls.deep_view();
    let mut out: Vec<PackageSummary> = Vec::new();
    let mut i: usize = 0;
    assert(lv.take(0) =~= Seq::<Seq<char>>::empty());
    while i < ls.len()
        invariant
            i <= ls@.len() == lv.len(),
            lv == ls.deep_view(),
            lv == lines(output@),
            tsv_rows(lv.take(i as int), 9) matches Ok(rows) && out@.len() == rows.len()
                && forall|k: int| 0 <= k < rows.len() ==> summary_is(#[trigger] out@[k], rows[k]),
        decreases ls@.len() - i,
    {
        assert(lv.take(i + 1).drop_last() =~= lv.take(i as int));
        assert(lv.take(i + 1).last() == ls@[i as int]@);
        if !ls[i].as_str().is_empty() {
            match parse_tsv(ls[i].as_str(), 9) {
                Err(e) => {
                    proof {
                        lemma_tsv_rows_err(lv, 9, i + 1);
                    }
                    return Err(e);
                },
                Ok(f) => {
                    let p = summary_from(&f);
                    out.push(p);
                },
            }
        }
        i += 1;
    }
    assert(lv.take(i as int) =~= lv);
    Ok(out)
}

/// A search line's five fields: name, version, origin, comment, size.
pub open spec fn result_is(p: SearchResult, f: Seq<Seq<char>>) -> bool {
    &&& f.len() == 5
    &&& p.name@ == f[0] && p.version@ == f[1] && p.origin@ == f[2] && p.comment@ == f[3]
    &&& p.size@ == f[4]
}

/// Results of `pkg rquery` output, at most 100: blank lines skipped, the
/// first line without five fields (before 100 results) is the error.
pub open spec fn search_rows(ls: Seq<Seq<char>>) -> Result<Seq<Seq<Seq<char>>>, Seq<char>>
    decreases ls.len(),
{
    if ls.len() == 0 {
        Ok(seq![])
    } else {
        match search_rows(ls.drop_last()) {
            Err(m) => Err(m),
            Ok(rows) => if rows.len() >= 100 || ls.last().len() == 0 {
                Ok(rows)
            } else {
                match tsv(ls.last(), 5) {
                    Ok(f) => Ok(rows.push(f)),
                    Err(m) => Err(m),
                }
            },
        }
    }
}

proof fn lemma_search_rows_stable(ls: Seq<Seq<char>>, k: int)
    requires
        0 <= k <= ls.len(),
        search_rows(ls.take(k)) is Err || (search_rows(ls.take(k)) matches Ok(rows) && rows.len()
            >= 100),
    ensures
        search_rows(ls) == search_rows(ls.take(k)),
    decreases ls.len() - k,
{
    if k < ls.len() {
        assert(ls.take(k + 1).drop_last() =~= ls.take(k));
        lemma_search_rows_stable(ls, k + 1);
    } else {
        assert(ls.take(k) =~= ls);
    }
}

pub fn parse_search_results(output: &str) -> (r: ApiResult<Vec<SearchResult>>)
    ensures
        match search_rows(lines(output@)) {
            Ok(rows) => r matches Ok(ps) && ps@.len() == rows.len() && forall|i: int|
                0 <= i < rows.len() ==> result_is(#[trigger] ps@[i], rows[i]),
            Err(m) => r matches Err(ApiError::Internal(e)) && e@ == m,
        },
{
    let ls = split_lines(output);
    let ghost lv = ls.deep_view();
    let mut out: Vec<SearchResult> = Vec::new();
    let mut i: usize = 0;
    assert(lv.take(0) =~= Seq::<Seq<char>>::empty());
    while i < ls.len()
        invariant
            i <= ls@.len() == lv.len(),
            lv == ls.deep_view(),
            lv == lines(output@),
            out@.len() < 100,
            search_rows(lv.take(i as int)) matches Ok(rows) && out@.len() == rows.len()
                && forall|k: int| 0 <= k < rows.len() ==> result_is(#[trigger] out@[k], rows[k]),
        decreases ls@.len() - i,
    {
        assert(lv.take(i + 1).drop_last() =~= lv.take(i as int));
        assert(lv.take(i + 1).last() == ls@[i as int]@);
        if !ls[i].as_str().is_empty() {
            match parse_tsv(ls[i].as_str(), 5) {
                Err(e) => {
                    proof {
                        lemma_search_rows_stable(lv, i + 1);
                    }
                    return Err(e);
                },
                Ok(f) => {
                    let ghost fv = f.deep_view();
                    assert(forall|k: int| 0 <= k < 5 ==> fv[k] == #[trigger] f@[k]@);
                    out.push(
                        SearchResult {
                            name: f[0].clone(),
                            version: f[1].clone(),
                            origin: f[2].clone(),
                            comment: f[3].clone(),
                            size: f[4].clone(),
                        },
                    );
                    if out.len() >= 100 {
                        proof {
                            lemma_search_rows_stable(lv, i + 1);
                        }
                        return Ok(out);
                    }
                },
            }
        }
        i += 1;
    }
    assert(lv.take(i as int) =~= lv);
    Ok(out)
}

/// A `pkg query '%Fp\t%Fu\t%Fg\t%Fm'` line: the path, then owner, group and
/// mode when present and not empty.
pub open spec fn nonempty_part(parts: Seq<Seq<char>>, k: int) -> Option<Seq<char>> {
    if k < parts.len() && parts[k].len() > 0 {
        Some(parts[k])
    } else {
        None
    }
}

pub open spec fn opt_view(o: Option<String>) -> Option<Seq<char>> {
    match o {
        Some(s) => Some(s@),
        None => None,
    }
}

pub open spec fn file_is(p: PackageFile, line: Seq<char>) -> bool {
    let parts = splitn_char(line, 4, '\t');
    &&& p.path@ == parts[0]
    &&& opt_view(p.owner) == nonempty_part(parts, 1)
    &&& opt_view(p.group) == nonempty_part(parts, 2)
    &&& opt_view(p.mode) == nonempty_part(parts, 3)
}

pub open spec fn nonblank_lines(ls: Seq<Seq<char>>) -> Seq<Seq<char>> {
    ls.filter(|l: Seq<char>| l.len() > 0)
}

fn part_at(parts: &Vec<String>, k: usize) -> (r: Option<String>)
    ensures
        opt_view(r) == nonempty_part(parts.deep_view(), k as int),
{
    if k < parts.len() && !parts[k].as_str().is_empty() {
        assert(parts.deep_view()[k as int] == parts@[k as int]@);
        Some(parts[k].clone())
    } else {
        proof {
            if k < parts@.len() {
                assert(parts.deep_view()[k as int] == parts@[k as int]@);
            }
        }
        None
    }
}

/// The files of a package, one per non-blank line.
pub fn parse_file_list(output: &str) -> (r: Vec<PackageFile>)
    ensures
        r@.len() == nonblank_lines(lines(output@)).len(),
        forall|i: int| 0 <= i < r@.len() ==> file_is(#[trigger] r@[i], nonblank_lines(lines(output@))[i]),
{
    let ls = split_lines(output);
    let ghost lv = ls.deep_view();
    let mut out: Vec<PackageFile> = Vec::new();
    let mut i: usize = 0;
    assert(nonblank_lines(lv.take(0)) =~= Seq::<Seq<char>>::empty());
    while i < ls.len()
        invariant
            i <= ls@.len() == lv.len(),
            lv == ls.deep_view(),
            out@.len() == nonblank_lines(lv.take(i as int)).len(),
            forall|k: int| 0 <= k < out@.len() ==> file_is(#[trigger] out@[k], nonblank_lines(lv.take(i as int))[k]),
        decreases ls@.len() - i,
    {
        assert(lv.take(i + 1) =~= lv.take(i as int).push(lv[i as int]));
        assert(lv[i as int] == ls@[i as int]@);
        proof {
            lv.take(i as int).lemma_filter_push(lv[i as int], |l: Seq<char>| l.len() > 0);
        }
        if !ls[i].as_str().is_empty() {
            let parts = splitn_str(ls[i].as_str(), 4, '\t');
            proof {
                crate::text::lemma_splitn_nonempty(lv[i as int], 4, '\t');
            }
            assert(parts.deep_view()[0] == parts@[0]@);
            let f = PackageFile {
                path: parts[0].clone(),
                owner: part_at(&parts, 1),
                group: part_at(&parts, 2),
                mode: part_at(&parts, 3),
            };
            out.push(f);
        }
        i += 1;
    }
    assert(lv.take(i as int) =~= lv);
    out
}


// ───────────────────────── dry runs and commands ─────────────────────────

/// Where the scan of a dry run's output is: outside any list, in the list
/// of packages to install, or in the list to remove.
#[derive(Debug, Clone, Copy, PartialEq, Eq, Structural)]
pub enum PreviewSection {
    Outside,
    Install,
    Delete,
}

/// The package named on a list line (`vim: 9.2.0277 [FreeBSD-ports]`).
pub open spec fn listed_name(t: Seq<char>) -> Seq<char> {
    trim(before_char(t, ':'))
}

pub open spec fn preview_step(
    st: (PreviewSection, Seq<Seq<char>>, Seq<Seq<char>>),
    raw: Seq<char>,
) -> (PreviewSection, Seq<Seq<char>>, Seq<Seq<char>>) {
    let t = trim(raw);
    let (sec, ins, del) = st;
    if contains_sub(t, "New packages to be INSTALLED"@) {
        (PreviewSection::Install, ins, del)
    } else if contains_sub(t, "Installed packages to be REMOVED"@) {
        (PreviewSection::Delete, ins, del)
    } else if starts_with(t, "Number of packages"@) || t.len() == 0 {
        (PreviewSection::Outside, ins, del)
    } else {
        let n = listed_name(t);
        if sec == PreviewSection::Outside || n.len() == 0 || starts_with(n, "Number"@) {
            st
        } else if sec == PreviewSection::Install {
            (sec, ins.push(n), del)
        } else {
            (sec, ins, del.push(n))
        }
    }
}

pub open spec fn preview_scan(ls: Seq<Seq<char>>) -> (PreviewSection, Seq<Seq<char>>, Seq<Seq<char>>)
    decreases ls.len(),
{
    if ls.len() == 0 {
        (PreviewSection::Outside, seq![], seq![])
    } else {
        preview_step(preview_scan(ls.drop_last()), ls.last())
    }
}

/// The packages a dry run of `pkg install -n` / `pkg delete -nR` lists
/// under "New packages to be INSTALLED" and "Installed packages to be
/// REMOVED" (stdout and stderr together).
pub fn parse_preview(combined: &str) -> (r: PreviewResult)
    ensures
        r.install.deep_view() == preview_scan(lines(combined@)).1,
        r.delete.deep_view() == preview_scan(lines(combined@)).2,
{
    let ls = split_lines(combined);
    let ghost lv = ls.deep_view();
    let mut sec = PreviewSection::Outside;
    let mut install: Vec<String> = Vec::new();
    let mut delete: Vec<String> = Vec::new();
    let mut i: usize = 0;
    assert(install.deep_view() =~= Seq::<Seq<char>>::empty());
    assert(delete.deep_view() =~= Seq::<Seq<char>>::empty());
    assert(lv.take(0) =~= Seq::<Seq<char>>::empty());
    while i < ls.len()
        invariant
            i <= ls@.len() == lv.len(),
            lv == ls.deep_view(),
            lv == lines(combined@),
            preview_scan(lv.take(i as int)) == (sec, install.deep_view(), delete.deep_view()),
        decreases ls@.len() - i,
    {
        assert(lv.take(i + 1).drop_last() =~= lv.take(i as int));
        assert(lv.take(i + 1).last() == ls@[i as int]@);
        let t = trim_str(ls[i].as_str());
        if contains_str(t.as_str(), "New packages to be INSTALLED") {
            sec = PreviewSection::Install;
        } else if contains_str(t.as_str(), "Installed packages to be REMOVED") {
            sec = PreviewSection::Delete;
        } else if starts_with_str(t.as_str(), "Number of packages") || t.as_str().is_empty() {
            sec = PreviewSection::Outside;
        } else {
            let b = before_char_str(t.as_str(), ':');
            let n = trim_str(b.as_str());
            if sec != PreviewSection::Outside && !n.as_str().is_empty() && !starts_with_str(
                n.as_str(),
                "Number",
            ) {
                if sec == PreviewSection::Install {
                    let ghost o = install.deep_view();
                    install.push(n);
                    assert(install.deep_view() =~= o.push(listed_name(t@)));
                } else {
                    let ghost o = delete.deep_view();
                    delete.push(n);
                    assert(delete.deep_view() =~= o.push(listed_name(t@)));
                }
            }
        }
        i += 1;
    }
    assert(lv.take(i as int) =~= lv);
    PreviewResult { install, delete }
}

fn push_owned(v: &mut Vec<String>, s: &str)
    ensures
        final(v).deep_view() == old(v).deep_view().push(s@),
{
    let ghost o = v.deep_view();
    v.push(owned(s));
    assert(v.deep_view() =~= o.push(s@));
}

fn push_all_names(v: &mut Vec<String>, names: &Vec<String>)
    ensures
        final(v).deep_view() == old(v).deep_view() + names.deep_view(),
{
    let ghost start = v.deep_view();
    let ghost nv = names.deep_view();
    let mut i: usize = 0;
    while i < names.len()
        invariant
            i <= names@.len() == nv.len(),
            nv == names.deep_view(),
            v.deep_view() == start + nv.take(i as int),
        decreases names@.len() - i,
    {
        let ghost o = v.deep_view();
        v.push(names[i].clone());
        assert(v.deep_view() =~= o.push(nv[i as int]));
        assert(start + nv.take(i + 1) =~= (start + nv.take(i as int)).push(nv[i as int]));
        i += 1;
    }
    assert(nv.take(i as int) =~= nv);
}

/// `pkg <action> -n [-R] <packages>`: the dry run of an action (`-R`
/// for a delete).
pub fn preview_args(action: &str, packages: &Vec<String>) -> (r: Vec<String>)
    ensures
        r.deep_view() == seq![action@, "-n"@] + (if action@ == "delete"@ {
            seq!["-R"@]
        } else {
            seq![]
        }) + packages.deep_view(),
{
    let mut v: Vec<String> = Vec::new();
    push_owned(&mut v, action);
    push_owned(&mut v, "-n");
    if str_eq(action, "delete") {
        push_owned(&mut v, "-R");
    }
    push_all_names(&mut v, packages);
    assert(v.deep_view() =~= seq![action@, "-n"@] + (if action@ == "delete"@ {
        seq!["-R"@]
    } else {
        seq![]
    }) + packages.deep_view());
    v
}

/// `pkg <action> -y [-R] <packages>`: the action itself (`-R` for a
/// recursive delete).
pub fn run_args(action: &str, packages: &Vec<String>, recursive: bool) -> (r: Vec<String>)
    ensures
        r.deep_view() == seq![action@, "-y"@] + (if action@ == "delete"@ && recursive {
            seq!["-R"@]
        } else {
            seq![]
        }) + packages.deep_view(),
{
    let mut v: Vec<String> = Vec::new();
    push_owned(&mut v, action);
    push_owned(&mut v, "-y");
    if str_eq(action, "delete") && recursive {
        push_owned(&mut v, "-R");
    }
    push_all_names(&mut v, packages);
    assert(v.deep_view() =~= seq![action@, "-y"@] + (if action@ == "delete"@ && recursive {
        seq!["-R"@]
    } else {
        seq![]
    }) + packages.deep_view());
    v
}

// ───────────────────────── the task store ─────────────────────────

/// How long finished and running tasks are kept, in seconds.
pub const TASK_TTL_SECS: i64 = 600;

/// First task with the given id.
pub open spec fn find_task(ts: Seq<PkgTask>, id: Seq<char>) -> Option<int>
    decreases ts.len(),
{
    if ts.len() == 0 {
        None
    } else if ts[0].id@ == id {
        Some(0)
    } else {
        match find_task(ts.drop_first(), id) {
            Some(i) => Some(i + 1),
            None => None,
        }
    }
}

proof fn lemma_find_task(ts: Seq<PkgTask>, id: Seq<char>, i: int)
    requires
        0 <= i <= ts.len(),
        forall|k: int| 0 <= k < i ==> ts[k].id@ != id,
        i == ts.len() || ts[i].id@ == id,
    ensures
        find_task(ts, id) == if i == ts.len() {
            None::<int>
        } else {
            Some(i)
        },
    decreases i,
{
    if i > 0 {
        let t = ts.drop_first();
        assert forall|k: int| 0 <= k < i - 1 implies t[k].id@ != id by {
            assert(t[k] == ts[k + 1]);
        }
        if i < ts.len() {
            assert(t[i - 1] == ts[i]);
        }
        lemma_find_task(t, id, i - 1);
    }
}

pub fn task_index(tasks: &Vec<PkgTask>, id: &str) -> (r: Option<usize>)
    ensures
        match r {
            Some(i) => find_task(tasks@, id@) == Some(i as int) && i < tasks@.len(),
            None => find_task(tasks@, id@) is None,
        },
{
    let mut j: usize = 0;
    while j < tasks.len()
        invariant
            j <= tasks@.len(),
            forall|k: int| 0 <= k < j ==> tasks@[k].id@ != id@,
        decreases tasks@.len() - j,
    {
        if str_eq(tasks[j].id.as_str(), id) {
            proof {
                lemma_find_task(tasks@, id@, j as int);
            }
            return Some(j);
        }
        j += 1;
    }
    proof {
        lemma_find_task(tasks@, id@, j as int);
    }
    None
}

/// A line of output joins the task with that id (if there is one); nothing
/// else changes.
pub fn push_line(tasks: &mut Vec<PkgTask>, task_id: &str, line: &str)
    ensures
        final(tasks)@.len() == old(tasks)@.len(),
        match find_task(old(tasks)@, task_id@) {
            None => final(tasks)@ == old(tasks)@,
            Some(i) => {
                &&& forall|k: int| 0 <= k < old(tasks)@.len() && k != i ==> final(tasks)@[k] == old(tasks)@[k]
                &&& final(tasks)@[i].lines.deep_view() == old(tasks)@[i].lines.deep_view().push(line@)
                &&& final(tasks)@[i].id == old(tasks)@[i].id
                &&& final(tasks)@[i].status == old(tasks)@[i].status
                &&& final(tasks)@[i].exit_code == old(tasks)@[i].exit_code
                &&& final(tasks)@[i].packages == old(tasks)@[i].packages
                &&& final(tasks)@[i].action == old(tasks)@[i].action
                &&& final(tasks)@[i].created_at == old(tasks)@[i].created_at
            },
        },
{
    match task_index(tasks, task_id) {
        Some(i) => {
            let ghost o = tasks@;
            let mut t = tasks.remove(i);
            let ghost l0 = t.lines.deep_view();
            t.lines.push(owned(line));
            assert(t.lines.deep_view() =~= l0.push(line@));
            tasks.insert(i, t);
            assert(tasks@ =~= o.update(i as int, t));
        },
        None => {},
    }
}

/// The task with that id (if there is one) gets a final status and exit code.
pub fn set_status(tasks: &mut Vec<PkgTask>, task_id: &str, status: TaskStatus, exit_code: Option<i32>)
    ensures
        final(tasks)@.len() == old(tasks)@.len(),
        match find_task(old(tasks)@, task_id@) {
            None => final(tasks)@ == old(tasks)@,
            Some(i) => {
                &&& forall|k: int| 0 <= k < old(tasks)@.len() && k != i ==> final(tasks)@[k] == old(tasks)@[k]
                &&& final(tasks)@[i] == (PkgTask { status, exit_code, ..old(tasks)@[i] })
            },
        },
{
    match task_index(tasks, task_id) {
        Some(i) => {
            let ghost o = tasks@;
            let mut t = tasks.remove(i);
            t.status = status;
            t.exit_code = exit_code;
            tasks.insert(i, t);
            assert(tasks@ =~= o.update(i as int, t));
        },
        None => {},
    }
}

/// Tasks created more than `TASK_TTL_SECS` before `now` are dropped.
pub fn gc_tasks(tasks: &mut Vec<PkgTask>, now: i64)
    requires
        now >= i64::MIN + TASK_TTL_SECS,
    ensures
        final(tasks)@ == old(tasks)@.filter(|t: PkgTask| t.created_at > now - TASK_TTL_SECS),
{
    let cutoff = now - TASK_TTL_SECS;
    let ghost old_v = tasks@;
    let ghost keep = |t: PkgTask| t.created_at > cutoff;
    let mut i: usize = 0;
    let ghost mut j: int = 0;
    assert(old_v.take(0).filter(keep) =~= Seq::<PkgTask>::empty());
    assert(old_v.skip(0) =~= old_v);
    while i < tasks.len()
        invariant
            0 <= j <= old_v.len(),
            tasks@ == old_v.take(j).filter(keep) + old_v.skip(j),
            i == old_v.take(j).filter(keep).len(),
            keep == (|t: PkgTask| t.created_at > cutoff),
        decreases tasks@.len() - i,
    {
        assert(tasks@[i as int] == old_v[j]);
        assert(old_v.take(j + 1) =~= old_v.take(j).push(old_v[j]));
        proof {
            old_v.take(j).lemma_filter_push(old_v[j], keep);
        }
        if tasks[i].created_at > cutoff {
            assert(tasks@ =~= old_v.take(j + 1).filter(keep) + old_v.skip(j + 1));
            i += 1;
        } else {
            let _gone = tasks.remove(i);
            assert(tasks@ =~= old_v.take(j + 1).filter(keep) + old_v.skip(j + 1));
        }
        proof {
            j = j + 1;
        }
    }
    proof {
        assert(j == old_v.len()) by {
            if j < old_v.len() {
                assert(tasks@.len() > i);
            }
        }
        assert(old_v.take(j) =~= old_v);
        assert(old_v.skip(j) =~= Seq::<PkgTask>::empty());
        assert(tasks@ =~= old_v.filter(keep));
    }
}

} // verus!
