//! Scanning a repository against its CSV index: which CSV files on disk are
//! not registered, which registered files are missing, and which ids or paths
//! the index lists twice.
use vstd::prelude::*;

use crate::paths::{diff_paths, join_path, joined_path, path_eq, relative_path, same_path};
use crate::text::{copy_texts, str_eq, texts};

verus! {

/// The repository index (`configs/repo-index.yaml`).
#[derive(Debug)]
pub struct RepoIndex {
    pub version: u32,
    pub root: Option<String>,
    pub csv_files: Vec<CsvFileEntry>,
    pub rules: Option<RepoRules>,
}

/// One registered CSV file.
#[derive(Debug)]
pub struct CsvFileEntry {
    pub id: String,
    pub path: String,
    pub schema: Option<String>,
    pub status: Option<String>,
    pub description: Option<String>,
    pub tags: Option<Vec<String>>,
}

/// Scan rules of the index; an absent rule takes its default.
#[derive(Debug)]
pub struct RepoRules {
    pub fail_on_unregistered_csv: Option<bool>,
    pub fail_on_duplicate_paths: Option<bool>,
    pub fail_on_duplicate_ids: Option<bool>,
    pub include_globs: Option<Vec<String>>,
    pub exclude_globs: Option<Vec<String>>,
}

/// What a scan found.
#[derive(Debug)]
pub struct ScanResult {
    pub unregistered_csvs: Vec<String>,
    pub missing_csvs: Vec<String>,
    pub duplicate_ids: Vec<String>,
    pub duplicate_paths: Vec<String>,
}

impl ScanResult {
    /// A scan is clean when it found nothing to report.
    pub fn is_clean(&self) -> (b: bool)
        ensures
            b == (self.unregistered_csvs@.len() == 0 && self.missing_csvs@.len() == 0
                && self.duplicate_ids@.len() == 0 && self.duplicate_paths@.len() == 0),
    {
        self.unregistered_csvs.len() == 0 && self.missing_csvs.len() == 0
            && self.duplicate_ids.len() == 0 && self.duplicate_paths.len() == 0
    }
}

/// Some path among the first `n` of `s` is the same path as `p`.
pub open spec fn listed_before(s: Seq<Seq<char>>, p: Seq<char>, n: int) -> bool {
    exists|j: int| 0 <= j < n && j < s.len() && same_path(p, #[trigger] s[j])
}

/// A later path of `s` is the same path as `s[i]`.
pub open spec fn path_repeated_after(s: Seq<Seq<char>>, i: int) -> bool {
    exists|j: int| i < j < s.len() && same_path(#[trigger] s[j], s[i])
}

/// A later text of `s` equals `s[i]`.
pub open spec fn text_repeated_after(s: Seq<Seq<char>>, i: int) -> bool {
    exists|j: int| i < j < s.len() && #[trigger] s[j] == s[i]
}

/// The elements `s[i]`, `i < n`, for which `keep(i)` holds, in order.
pub open spec fn kept(s: Seq<Seq<char>>, keep: spec_fn(int) -> bool, n: int) -> Seq<Seq<char>>
    decreases n,
{
    if n <= 0 {
        Seq::empty()
    } else if keep(n - 1) {
        kept(s, keep, n - 1).push(s[n - 1])
    } else {
        kept(s, keep, n - 1)
    }
}

/// Where the scan looks: the index root under `root`, or `root` itself.
pub open spec fn scan_root_of(root: Seq<char>, index: RepoIndex) -> Seq<char> {
    match index.root {
        Some(r) => joined_path(root, r@),
        None => root,
    }
}

/// A discovered file, relative to the scan root where a relative path exists.
pub open spec fn relative_or_self(path: Seq<char>, base: Seq<char>) -> Seq<char> {
    match relative_path(path, base) {
        Some(r) => r,
        None => path,
    }
}

/// The paths the index registers, in order.
pub open spec fn indexed_paths(index: RepoIndex) -> Seq<Seq<char>> {
    index.csv_files@.map_values(|e: CsvFileEntry| e.path@)
}

/// The ids the index registers, in order.
pub open spec fn indexed_ids(index: RepoIndex) -> Seq<Seq<char>> {
    index.csv_files@.map_values(|e: CsvFileEntry| e.id@)
}

/// Discovered files, relative to the scan root.
pub open spec fn discovered_paths(walked: Seq<Seq<char>>, base: Seq<char>) -> Seq<Seq<char>> {
    walked.map_values(|p: Seq<char>| relative_or_self(p, base))
}

/// Which discovered files are reported unregistered: the first of their path,
/// and not registered.
pub open spec fn unregistered_keep(disc: Seq<Seq<char>>, idx: Seq<Seq<char>>) -> spec_fn(int) -> bool {
    |i: int| !listed_before(disc, disc[i], i) && !listed_before(idx, disc[i], idx.len() as int)
}

/// Which registered files are reported missing: the first of their path, and
/// not discovered.
pub open spec fn missing_keep(disc: Seq<Seq<char>>, idx: Seq<Seq<char>>) -> spec_fn(int) -> bool {
    |i: int| !listed_before(idx, idx[i], i) && !listed_before(disc, idx[i], disc.len() as int)
}

/// Which registered paths are reported duplicated: the first of their path,
/// listed again later.
pub open spec fn duplicate_path_keep(idx: Seq<Seq<char>>) -> spec_fn(int) -> bool {
    |i: int| !listed_before(idx, idx[i], i) && path_repeated_after(idx, i)
}

/// Which registered ids are reported duplicated: the first of their text,
/// listed again later.
pub open spec fn duplicate_id_keep(ids: Seq<Seq<char>>) -> spec_fn(int) -> bool {
    |i: int| !ids.take(i).contains(ids[i]) && text_repeated_after(ids, i)
}

/// Discovered files, each once, that the index does not register.
pub open spec fn unregistered_of(disc: Seq<Seq<char>>, idx: Seq<Seq<char>>) -> Seq<Seq<char>> {
    kept(disc, unregistered_keep(disc, idx), disc.len() as int)
}

/// Registered files, each once, that were not discovered.
pub open spec fn missing_of(disc: Seq<Seq<char>>, idx: Seq<Seq<char>>) -> Seq<Seq<char>> {
    kept(idx, missing_keep(disc, idx), idx.len() as int)
}

/// Registered paths listed more than once, each once.
pub open spec fn duplicate_paths_of(idx: Seq<Seq<char>>) -> Seq<Seq<char>> {
    kept(idx, duplicate_path_keep(idx), idx.len() as int)
}

/// Registered ids listed more than once, each once.
pub open spec fn duplicate_ids_of(ids: Seq<Seq<char>>) -> Seq<Seq<char>> {
    kept(ids, duplicate_id_keep(ids), ids.len() as int)
}

/// The globs the scan walks: the index's include globs, or `**/*.csv`.
pub fn scan_include_globs(index: &RepoIndex) -> (g: Vec<String>)
    ensures
        match index.rules {
            Some(r) if r.include_globs is Some => texts(g@) == texts(r.include_globs->0@),
            _ => texts(g@) == seq!["**/*.csv"@],
        },
{
    match &index.rules {
        Some(r) => match &r.include_globs {
            Some(g) => return copy_texts(g),
            None => {},
        },
        None => {},
    }
    let mut g: Vec<String> = Vec::new();
    g.push(String::from_str("**/*.csv"));
    assert(texts(g@) =~= seq!["**/*.csv"@]);
    g
}

/// The globs the scan skips: the index's exclude globs, or `target/**` and `.git/**`.
pub fn scan_exclude_globs(index: &RepoIndex) -> (g: Vec<String>)
    ensures
        match index.rules {
            Some(r) if r.exclude_globs is Some => texts(g@) == texts(r.exclude_globs->0@),
            _ => texts(g@) == seq!["target/**"@, ".git/**"@],
        },
{
    match &index.rules {
        Some(r) => match &r.exclude_globs {
            Some(g) => return copy_texts(g),
            None => {},
        },
        None => {},
    }
    let mut g: Vec<String> = Vec::new();
    g.push(String::from_str("target/**"));
    g.push(String::from_str(".git/**"));
    assert(texts(g@) =~= seq!["target/**"@, ".git/**"@]);
    g
}

/// The directory a scan of the repository at `root` walks.
pub fn scan_root(root: &str, index: &RepoIndex) -> (r: String)
    ensures
        r@ == scan_root_of(root@, *index),
{
    match &index.root {
        Some(sub) => join_path(root, sub.as_str()),
        None => String::from_str(root),
    }
}

/// Whether a path among the first `n` of `s` is the same path as `p`.
pub(crate) fn listed_in(s: &Vec<String>, p: &str, n: usize) -> (b: bool)
    requires
        n <= s.len(),
    ensures
        b == listed_before(texts(s@), p@, n as int),
{
    let ghost sv = texts(s@);
    let mut j: usize = 0;
    while j < n
        invariant
            sv == texts(s@),
            n <= s.len(),
            j <= n,
            forall|q: int| 0 <= q < j ==> !same_path(p@, #[trigger] sv[q]),
        decreases n - j,
    {
        assert(sv[j as int] == s@[j as int]@);
        if path_eq(p, s[j].as_str()) {
            return true;
        }
        j = j + 1;
    }
    false
}

/// Whether a later path of `s` is the same path as `s[i]`.
fn repeated_later(s: &Vec<String>, i: usize) -> (b: bool)
    requires
        i < s.len(),
    ensures
        b == path_repeated_after(texts(s@), i as int),
{
    let ghost sv = texts(s@);
    let mut j: usize = i + 1;
    while j < s.len()
        invariant
            sv == texts(s@),
            i < j <= s.len(),
            forall|q: int| i < q < j ==> !same_path(#[trigger] sv[q], sv[i as int]),
        decreases s.len() - j,
    {
        assert(sv[j as int] == s@[j as int]@);
        if path_eq(s[j].as_str(), s[i].as_str()) {
            return true;
        }
        j = j + 1;
    }
    false
}

/// Whether a later text of `s` equals `s[i]`.
fn text_repeated_later(s: &Vec<String>, i: usize) -> (b: bool)
    requires
        i < s.len(),
    ensures
        b == text_repeated_after(texts(s@), i as int),
{
    let ghost sv = texts(s@);
    let mut j: usize = i + 1;
    while j < s.len()
        invariant
            sv == texts(s@),
            i < j <= s.len(),
            forall|q: int| i < q < j ==> #[trigger] sv[q] != sv[i as int],
        decreases s.len() - j,
    {
        assert(sv[j as int] == s@[j as int]@);
        if str_eq(s[j].as_str(), s[i].as_str()) {
            return true;
        }
        j = j + 1;
    }
    false
}

/// Whether a text before position `i` of `s` equals `s[i]`.
fn text_seen_before(s: &Vec<String>, i: usize) -> (b: bool)
    requires
        i < s.len(),
    ensures
        b == texts(s@).take(i as int).contains(texts(s@)[i as int]),
{
    let ghost sv = texts(s@);
    let mut j: usize = 0;
    while j < i
        invariant
            sv == texts(s@),
            i < s.len(),
            j <= i,
            forall|q: int| 0 <= q < j ==> sv[q] != sv[i as int],
        decreases i - j,
    {
        if str_eq(s[j].as_str(), s[i].as_str()) {
            assert(sv.take(i as int)[j as int] == sv[i as int]);
            return true;
        }
        j = j + 1;
    }
    assert forall|q: int| 0 <= q < sv.take(i as int).len() implies sv.take(i as int)[q] != sv[i as int] by {
        assert(sv.take(i as int)[q] == sv[q]);
    }
    false
}

fn entry_paths(index: &RepoIndex) -> (v: Vec<String>)
    ensures
        texts(v@) == indexed_paths(*index),
{
    let mut v: Vec<String> = Vec::new();
    let mut i: usize = 0;
    while i < index.csv_files.len()
        invariant
            i <= index.csv_files.len(),
            v@.len() == i,
            texts(v@) == indexed_paths(*index).take(i as int),
        decreases index.csv_files.len() - i,
    {
        let ghost before = v@;
        v.push(index.csv_files[i].path.clone());
        assert(indexed_paths(*index)[i as int] == index.csv_files@[i as int].path@);
        assert(texts(v@) =~= indexed_paths(*index).take(i + 1));
        i = i + 1;
    }
    assert(indexed_paths(*index).take(i as int) =~= indexed_paths(*index));
    v
}

fn entry_ids(index: &RepoIndex) -> (v: Vec<String>)
    ensures
        texts(v@) == indexed_ids(*index),
{
    let mut v: Vec<String> = Vec::new();
    let mut i: usize = 0;
    while i < index.csv_files.len()
        invariant
            i <= index.csv_files.len(),
            v@.len() == i,
            texts(v@) == indexed_ids(*index).take(i as int),
        decreases index.csv_files.len() - i,
    {
        let ghost before = v@;
        v.push(index.csv_files[i].id.clone());
        assert(indexed_ids(*index)[i as int] == index.csv_files@[i as int].id@);
        assert(texts(v@) =~= indexed_ids(*index).take(i + 1));
        i = i + 1;
    }
    assert(indexed_ids(*index).take(i as int) =~= indexed_ids(*index));
    v
}

/// Scans the repository at `root` against `index`, given the files `walked`
/// that the walk of the scan root (see [`scan_root`], [`scan_include_globs`],
/// [`scan_exclude_globs`]) found.
///
/// Each walked file is taken relative to the scan root. Unregistered files are
/// the discovered files that the index does not register; missing files are the
/// registered ones that were not discovered; duplicates are the ids and paths
/// the index lists more than once. Each is reported once, at its first
/// occurrence, in order.
pub fn scan_repo(root: &str, index: &RepoIndex, walked: &Vec<String>) -> (r: ScanResult)
    ensures
        ({
            let disc = discovered_paths(texts(walked@), scan_root_of(root@, *index));
            let idx = indexed_paths(*index);
            &&& texts(r.unregistered_csvs@) == unregistered_of(disc, idx)
            &&& texts(r.missing_csvs@) == missing_of(disc, idx)
            &&& texts(r.duplicate_ids@) == duplicate_ids_of(indexed_ids(*index))
            &&& texts(r.duplicate_paths@) == duplicate_paths_of(idx)
        }),
{
    let repo_root = scan_root(root, index);
    let ghost base = repo_root@;
    let mut disc: Vec<String> = Vec::new();
    let mut i: usize = 0;
    while i < walked.len()
        invariant
            base == repo_root@,
            i <= walked.len(),
            disc@.len() == i,
            texts(disc@) == discovered_paths(texts(walked@), base).take(i as int),
        decreases walked.len() - i,
    {
        let p = walked[i].as_str();
        let rel = match diff_paths(p, repo_root.as_str()) {
            Some(r) => r,
            None => String::from_str(p),
        };
        assert(texts(walked@)[i as int] == p@);
        assert(discovered_paths(texts(walked@), base)[i as int] == relative_or_self(p@, base));
        assert(rel@ == relative_or_self(p@, base));
        disc.push(rel);
        assert(texts(disc@) =~= discovered_paths(texts(walked@), base).take(i + 1));
        i = i + 1;
    }
    assert(discovered_paths(texts(walked@), base).take(i as int) =~= discovered_paths(texts(walked@), base));
    let idx = entry_paths(index);
    let ids = entry_ids(index);
    let ghost dv = texts(disc@);
    let ghost iv = texts(idx@);
    let ghost idv = texts(ids@);

    let mut unregistered: Vec<String> = Vec::new();
    let mut i: usize = 0;
    while i < disc.len()
        invariant
            dv == texts(disc@),
            iv == texts(idx@),
            i <= disc.len(),
            texts(unregistered@) == kept(dv, unregistered_keep(dv, iv), i as int),
        decreases disc.len() - i,
    {
        assert(dv[i as int] == disc@[i as int]@);
        if !listed_in(&disc, disc[i].as_str(), i) && !listed_in(&idx, disc[i].as_str(), idx.len()) {
            unregistered.push(disc[i].clone());
        }
        assert(texts(unregistered@) =~= kept(dv, unregistered_keep(dv, iv), i + 1));
        i = i + 1;
    }

    let mut missing: Vec<String> = Vec::new();
    let mut dup_paths: Vec<String> = Vec::new();
    let mut i: usize = 0;
    while i < idx.len()
        invariant
            dv == texts(disc@),
            iv == texts(idx@),
            i <= idx.len(),
            texts(missing@) == kept(iv, missing_keep(dv, iv), i as int),
            texts(dup_paths@) == kept(iv, duplicate_path_keep(iv), i as int),
        decreases idx.len() - i,
    {
        assert(iv[i as int] == idx@[i as int]@);
        let first = !listed_in(&idx, idx[i].as_str(), i);
        if first && !listed_in(&disc, idx[i].as_str(), disc.len()) {
            missing.push(idx[i].clone());
        }
        if first && repeated_later(&idx, i) {
            dup_paths.push(idx[i].clone());
        }
        assert(texts(missing@) =~= kept(iv, missing_keep(dv, iv), i + 1));
        assert(texts(dup_paths@) =~= kept(iv, duplicate_path_keep(iv), i + 1));
        i = i + 1;
    }

    let mut dup_ids: Vec<String> = Vec::new();
    let mut i: usize = 0;
    while i < ids.len()
        invariant
            idv == texts(ids@),
            i <= ids.len(),
            texts(dup_ids@) == kept(idv, duplicate_id_keep(idv), i as int),
        decreases ids.len() - i,
    {
        if !text_seen_before(&ids, i) && text_repeated_later(&ids, i) {
            dup_ids.push(ids[i].clone());
        }
        assert(texts(dup_ids@) =~= kept(idv, duplicate_id_keep(idv), i + 1));
        i = i + 1;
    }
    ScanResult {
        unregistered_csvs: unregistered,
        missing_csvs: missing,
        duplicate_ids: dup_ids,
        duplicate_paths: dup_paths,
    }
}

/// What a scan command reports: the lines for the error stream, the line for
/// the output stream when all is well, and the exit code.
#[derive(Debug)]
pub struct ScanReport {
    pub messages: Vec<String>,
    pub ok_message: Option<String>,
    pub exit_code: i32,
}

/// An optional rule, `true` when absent.
pub open spec fn rule_or_true(o: Option<bool>) -> bool {
    match o {
        Some(b) => b,
        None => true,
    }
}

/// Unregistered files fail the scan (the default).
pub open spec fn fails_on_unregistered(index: RepoIndex) -> bool {
    match index.rules {
        Some(r) => rule_or_true(r.fail_on_unregistered_csv),
        None => true,
    }
}

/// Duplicate ids fail the scan (the default).
pub open spec fn fails_on_duplicate_ids(index: RepoIndex) -> bool {
    match index.rules {
        Some(r) => rule_or_true(r.fail_on_duplicate_ids),
        None => true,
    }
}

/// Duplicate paths fail the scan (the default).
pub open spec fn fails_on_duplicate_paths(index: RepoIndex) -> bool {
    match index.rules {
        Some(r) => rule_or_true(r.fail_on_duplicate_paths),
        None => true,
    }
}

/// A titled list: the title, then one `  - item` line per item; nothing when
/// there are no items.
pub open spec fn section(title: Seq<char>, items: Seq<Seq<char>>) -> Seq<Seq<char>> {
    if items.len() == 0 {
        Seq::empty()
    } else {
        seq![title] + items.map_values(|s: Seq<char>| "  - "@ + s)
    }
}

/// The error-stream lines of a scan report.
pub open spec fn scan_messages(r: ScanResult) -> Seq<Seq<char>> {
    section("Duplicate CSV ids found in repo-index.yaml:"@, texts(r.duplicate_ids@))
        + section("Duplicate CSV paths found in repo-index.yaml:"@, texts(r.duplicate_paths@))
        + section("Unregistered CSV files discovered in repository:"@, texts(r.unregistered_csvs@))
        + section("CSV files listed in repo-index.yaml but missing on disk:"@, texts(r.missing_csvs@))
}

/// The exit code of a scan: 1 when a finding fails the scan under the index's
/// rules (missing files always do), else 0.
pub open spec fn scan_exit_code(index: RepoIndex, r: ScanResult) -> i32 {
    if (r.duplicate_ids@.len() > 0 && fails_on_duplicate_ids(index))
        || (r.duplicate_paths@.len() > 0 && fails_on_duplicate_paths(index))
        || (r.unregistered_csvs@.len() > 0 && fails_on_unregistered(index))
        || r.missing_csvs@.len() > 0 {
        1
    } else {
        0
    }
}

fn push_section(lines: &mut Vec<String>, title: &str, items: &Vec<String>)
    ensures
        texts(final(lines)@) == texts(old(lines)@) + section(title@, texts(items@)),
{
    if items.len() == 0 {
        assert(texts(old(lines)@) + section(title@, texts(items@)) =~= texts(old(lines)@));
        return;
    }
    let ghost start = texts(lines@);
    lines.push(String::from_str(title));
    let ghost items_view = texts(items@).map_values(|s: Seq<char>| "  - "@ + s);
    let mut i: usize = 0;
    assert(texts(lines@) =~= start + seq![title@] + items_view.take(0));
    while i < items.len()
        invariant
            items_view == texts(items@).map_values(|s: Seq<char>| "  - "@ + s),
            i <= items.len(),
            lines@.len() == start.len() + 1 + i,
            texts(lines@) == start + seq![title@] + items_view.take(i as int),
        decreases items.len() - i,
    {
        let mut line = String::from_str("  - ");
        line.append(items[i].as_str());
        assert(line@ == items_view[i as int]);
        let ghost before = texts(lines@);
        lines.push(line);
        assert(texts(lines@) =~= before.push(items_view[i as int]));
        assert(items_view.take(i + 1) =~= items_view.take(i as int).push(items_view[i as int]));
        assert(texts(lines@) =~= start + seq![title@] + items_view.take(i + 1));
        i = i + 1;
    }
    assert(items_view.take(i as int) =~= items_view);
    assert(start + seq![title@] + items_view =~= start + section(title@, texts(items@)));
}

/// Reports a scan under the index's rules: the findings, titled, for the error
/// stream; an OK line when nothing fails; and the exit code.
pub fn scan_report(index: &RepoIndex, result: &ScanResult) -> (rep: ScanReport)
    ensures
        texts(rep.messages@) == scan_messages(*result),
        rep.exit_code == scan_exit_code(*index, *result),
        rep.ok_message is Some <==> rep.exit_code == 0,
        rep.ok_message matches Some(m) ==> m@ == "csv-cli scan: OK (all CSV files match repo-index.yaml)"@,
{
    let (fail_unregistered, fail_ids, fail_paths) = match &index.rules {
        Some(r) => (
            match r.fail_on_unregistered_csv { Some(b) => b, None => true },
            match r.fail_on_duplicate_ids { Some(b) => b, None => true },
            match r.fail_on_duplicate_paths { Some(b) => b, None => true },
        ),
        None => (true, true, true),
    };
    let mut messages: Vec<String> = Vec::new();
    let mut exit_code: i32 = 0;
    assert(texts(messages@) =~= Seq::<Seq<char>>::empty());
    push_section(&mut messages, "Duplicate CSV ids found in repo-index.yaml:", &result.duplicate_ids);
    if result.duplicate_ids.len() > 0 && fail_ids {
        exit_code = 1;
    }
    push_section(&mut messages, "Duplicate CSV paths found in repo-index.yaml:", &result.duplicate_paths);
    if result.duplicate_paths.len() > 0 && fail_paths {
        exit_code = 1;
    }
    push_section(&mut messages, "Unregistered CSV files discovered in repository:", &result.unregistered_csvs);
    if result.unregistered_csvs.len() > 0 && fail_unregistered {
        exit_code = 1;
    }
    push_section(&mut messages, "CSV files listed in repo-index.yaml but missing on disk:", &result.missing_csvs);
    if result.missing_csvs.len() > 0 {
        exit_code = 1;
    }
    let ok_message = if exit_code == 0 {
        Some(String::from_str("csv-cli scan: OK (all CSV files match repo-index.yaml)"))
    } else {
        None
    };
    ScanReport { messages, ok_message, exit_code }
}

/// A clean scan passes whatever the rules say, and a scan that finds a
/// registered file missing on disk fails whatever the rules say.
pub proof fn law_clean_scans_pass_and_missing_files_fail(index: RepoIndex, r: ScanResult)
    ensures
        (r.unregistered_csvs@.len() == 0 && r.missing_csvs@.len() == 0 && r.duplicate_ids@.len() == 0
            && r.duplicate_paths@.len() == 0) ==> scan_exit_code(index, r) == 0,
        r.missing_csvs@.len() > 0 ==> scan_exit_code(index, r) == 1,
{
}

proof fn lemma_kept(s: Seq<Seq<char>>, keep: spec_fn(int) -> bool, n: int)
    requires
        0 <= n <= s.len(),
    ensures
        forall|k: int| #![trigger kept(s, keep, n)[k]] 0 <= k < kept(s, keep, n).len() ==>
            exists|i: int| 0 <= i < n && keep(i) && kept(s, keep, n)[k] == #[trigger] s[i],
        forall|i: int| 0 <= i < n && keep(i) ==> kept(s, keep, n).contains(#[trigger] s[i]),
    decreases n,
{
    if n > 0 {
        lemma_kept(s, keep, n - 1);
        let prev = kept(s, keep, n - 1);
        if keep(n - 1) {
            assert(kept(s, keep, n) == prev.push(s[n - 1]));
        } else {
            assert(kept(s, keep, n) == prev);
        }
        assert forall|k: int| #![trigger kept(s, keep, n)[k]] 0 <= k < kept(s, keep, n).len() implies
            exists|i: int| 0 <= i < n && keep(i) && kept(s, keep, n)[k] == #[trigger] s[i] by {
            if k < prev.len() {
                assert(kept(s, keep, n)[k] == prev[k]);
                let i = choose|i: int| 0 <= i < n - 1 && keep(i) && prev[k] == #[trigger] s[i];
                assert(kept(s, keep, n)[k] == s[i]);
            } else {
                assert(kept(s, keep, n)[k] == s[n - 1]);
            }
        }
        assert forall|i: int| 0 <= i < n && keep(i) implies kept(s, keep, n).contains(#[trigger] s[i]) by {
            if i < n - 1 {
                let k = choose|k: int| 0 <= k < prev.len() && prev[k] == s[i];
                assert(kept(s, keep, n)[k] == prev[k]);
            } else {
                assert(kept(s, keep, n)[prev.len() as int] == s[i]);
            }
        }
    } else {
        assert(kept(s, keep, n) =~= Seq::<Seq<char>>::empty());
    }
}

/// The files a scan reports missing are exactly the registered paths that no
/// discovered file matches. Each reported path is a registered one that is
/// not the same path as any discovered file (wherever it stands among them);
/// and every registered path that no discovered file matches, and that no
/// earlier entry already registers, is reported.
pub proof fn law_missing_files_are_the_undiscovered_ones(disc: Seq<Seq<char>>, idx: Seq<Seq<char>>)
    ensures
        forall|k: int| #![trigger missing_of(disc, idx)[k]] 0 <= k < missing_of(disc, idx).len() ==> exists|i: int| {
            &&& 0 <= i < idx.len()
            &&& missing_of(disc, idx)[k] == #[trigger] idx[i]
            &&& forall|j: int| 0 <= j < disc.len() ==> !same_path(idx[i], #[trigger] disc[j])
        },
        forall|i: int| 0 <= i < idx.len()
            && (forall|j: int| 0 <= j < disc.len() ==> !same_path(idx[i], #[trigger] disc[j]))
            && (forall|j: int| 0 <= j < i ==> !same_path(idx[i], #[trigger] idx[j]))
            ==> missing_of(disc, idx).contains(#[trigger] idx[i]),
{
    lemma_kept(idx, missing_keep(disc, idx), idx.len() as int);
}

/// The files a scan reports unregistered are exactly the discovered files
/// that no registered path matches. Each reported file is a discovered one
/// that is not the same path as any registered path; and every discovered
/// file that no registered path matches, and that no earlier discovered file
/// already covers, is reported.
pub proof fn law_unregistered_files_are_the_unindexed_ones(disc: Seq<Seq<char>>, idx: Seq<Seq<char>>)
    ensures
        forall|k: int| #![trigger unregistered_of(disc, idx)[k]] 0 <= k < unregistered_of(disc, idx).len() ==> exists|i: int| {
            &&& 0 <= i < disc.len()
            &&& unregistered_of(disc, idx)[k] == #[trigger] disc[i]
            &&& forall|j: int| 0 <= j < idx.len() ==> !same_path(disc[i], #[trigger] idx[j])
        },
        forall|i: int| 0 <= i < disc.len()
            && (forall|j: int| 0 <= j < idx.len() ==> !same_path(disc[i], #[trigger] idx[j]))
            && (forall|j: int| 0 <= j < i ==> !same_path(disc[i], #[trigger] disc[j]))
            ==> unregistered_of(disc, idx).contains(#[trigger] disc[i]),
{
    lemma_kept(disc, unregistered_keep(disc, idx), disc.len() as int);
}

} // verus!
