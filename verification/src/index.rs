//! The repository CSV index (`repo-index.yaml`) with its defaults and the
//! invariants it must satisfy once loaded: unique ids, unique paths, and every
//! registered file present.
use vstd::prelude::*;
use vstd::hash_map::StringHashMap;
use vstd::hash_set::StringHashSet;

use crate::paths::{join_path, joined_path, replaces_base};
use crate::text::texts;

verus! {

/// Errors of loading the index that its contents cause.
#[derive(Debug, Clone)]
pub enum IndexError {
    DuplicateId { id: String },
    DuplicatePath { path: String },
    MissingFile { path: String },
}

/// The mathematical value of an [`IndexError`].
pub enum IndexErrorView {
    DuplicateId(Seq<char>),
    DuplicatePath(Seq<char>),
    MissingFile(Seq<char>),
}

impl View for IndexError {
    type V = IndexErrorView;

    open spec fn view(&self) -> IndexErrorView {
        match self {
            IndexError::DuplicateId { id } => IndexErrorView::DuplicateId(id@),
            IndexError::DuplicatePath { path } => IndexErrorView::DuplicatePath(path@),
            IndexError::MissingFile { path } => IndexErrorView::MissingFile(path@),
        }
    }
}

/// The repository index.
#[derive(Debug)]
pub struct RepoIndex {
    pub version: u32,
    pub root: Option<String>,
    pub csv_files: Vec<CsvIndexEntry>,
    pub rules: IndexRules,
}

/// One registered CSV file.
#[derive(Debug)]
pub struct CsvIndexEntry {
    pub id: String,
    pub path: String,
    pub schema: String,
    pub status: String,
}

/// The rules of the index.
#[derive(Debug)]
pub struct IndexRules {
    pub fail_on_unregistered_csv: bool,
    pub fail_on_duplicate_ids: bool,
    pub fail_on_duplicate_paths: bool,
    pub include_globs: Vec<String>,
    pub exclude_globs: Vec<String>,
}

/// The status of an entry that states none: `current`.
pub fn default_status() -> (s: String)
    ensures
        s@ == "current"@,
{
    String::from_str("current")
}

/// The value of a failure rule that the index does not state: `true`.
pub fn default_true() -> (b: bool)
    ensures
        b,
{
    true
}

/// The include globs when the index states none: `**/*.csv`.
pub fn default_glob_include() -> (g: Vec<String>)
    ensures
        texts(g@) == seq!["**/*.csv"@],
{
    let mut g: Vec<String> = Vec::new();
    g.push(String::from_str("**/*.csv"));
    assert(texts(g@) =~= seq!["**/*.csv"@]);
    g
}

/// The exclude globs when the index states none: `target/**` and `.git/**`.
pub fn default_glob_exclude() -> (g: Vec<String>)
    ensures
        texts(g@) == seq!["target/**"@, ".git/**"@],
{
    let mut g: Vec<String> = Vec::new();
    g.push(String::from_str("target/**"));
    g.push(String::from_str(".git/**"));
    assert(texts(g@) =~= seq!["target/**"@, ".git/**"@]);
    g
}

impl Default for IndexRules {
    fn default() -> (r: Self)
        ensures
            r.fail_on_unregistered_csv && r.fail_on_duplicate_ids && r.fail_on_duplicate_paths,
            texts(r.include_globs@) == seq!["**/*.csv"@],
            texts(r.exclude_globs@) == seq!["target/**"@, ".git/**"@],
    {
        IndexRules {
            fail_on_unregistered_csv: default_true(),
            fail_on_duplicate_ids: default_true(),
            fail_on_duplicate_paths: default_true(),
            include_globs: default_glob_include(),
            exclude_globs: default_glob_exclude(),
        }
    }
}

/// Where a registered path lies: under the index root when there is one.
pub open spec fn resolved(root: Option<String>, rel: Seq<char>) -> Seq<char> {
    match root {
        Some(r) => joined_path(r@, rel),
        None => rel,
    }
}

/// The ids of the index entries, in order.
pub open spec fn entry_ids(index: RepoIndex) -> Seq<Seq<char>> {
    index.csv_files@.map_values(|e: CsvIndexEntry| e.id@)
}

/// The resolved paths of the index entries, in order.
pub open spec fn entry_paths(index: RepoIndex) -> Seq<Seq<char>> {
    index.csv_files@.map_values(|e: CsvIndexEntry| resolved(index.root, e.path@))
}

/// The first broken invariant from entry `k` on, given which resolved entry
/// paths are files: a repeated id (when duplicate ids fail), a repeated path
/// (when duplicate paths fail), or a missing file, checked entry by entry.
pub open spec fn invariants_outcome(index: RepoIndex, is_file: Seq<bool>, k: int) -> Option<IndexErrorView>
    decreases index.csv_files@.len() - k,
{
    if k < 0 || k >= index.csv_files@.len() {
        None
    } else {
        let ids = entry_ids(index);
        let paths = entry_paths(index);
        if ids.take(k).contains(ids[k]) && index.rules.fail_on_duplicate_ids {
            Some(IndexErrorView::DuplicateId(ids[k]))
        } else if paths.take(k).contains(paths[k]) && index.rules.fail_on_duplicate_paths {
            Some(IndexErrorView::DuplicatePath(paths[k]))
        } else if !is_file[k] {
            Some(IndexErrorView::MissingFile(paths[k]))
        } else {
            invariants_outcome(index, is_file, k + 1)
        }
    }
}

/// The id-keyed view of entries: each id mapped to its last entry.
pub open spec fn by_id_map<'a>(s: Seq<&'a CsvIndexEntry>) -> Map<Seq<char>, &'a CsvIndexEntry>
    decreases s.len(),
{
    if s.len() == 0 {
        Map::empty()
    } else {
        by_id_map(s.drop_last()).insert(s.last().id@, s.last())
    }
}

proof fn lemma_take_push_contains(s: Seq<Seq<char>>, k: int, x: Seq<char>)
    requires
        0 <= k < s.len(),
    ensures
        s.take(k + 1).contains(x) <==> (s.take(k).contains(x) || s[k] == x),
{
    let a = s.take(k + 1);
    let b = s.take(k);
    assert(a =~= b.push(s[k]));
    if a.contains(x) {
        let i = choose|i: int| 0 <= i < a.len() && #[trigger] a[i] == x;
        if i < k {
            assert(b[i] == x);
        }
    }
    if b.contains(x) {
        let i = choose|i: int| 0 <= i < b.len() && #[trigger] b[i] == x;
        assert(a[i] == x);
    }
    if s[k] == x {
        assert(s.take(k + 1)[k] == x);
    }
}

impl RepoIndex {
    /// Gives the index the root `.` when it states none.
    pub fn set_default_root(&mut self)
        ensures
            final(self).version == old(self).version,
            final(self).csv_files == old(self).csv_files,
            final(self).rules == old(self).rules,
            old(self).root is Some ==> final(self).root == old(self).root,
            old(self).root is None ==> final(self).root is Some && final(self).root->0@ == "."@,
    {
        if self.root.is_none() {
            self.root = Some(String::from_str("."));
        }
    }

    /// Where the registered path `rel` lies: joined onto the root, when there
    /// is one. A path starting with `/` stays as it is (see `replaces_base`).
    pub fn resolve_path(&self, rel: &str) -> (p: String)
        ensures
            p@ == resolved(self.root, rel@),
            self.root is None ==> p@ == rel@,
            self.root matches Some(r) && replaces_base(r@, rel@) ==> p@ == rel@,
    {
        match &self.root {
            Some(root) => join_path(root.as_str(), rel),
            None => String::from_str(rel),
        }
    }

    /// Checks the index invariants, entry by entry, given whether each
    /// entry's resolved path is a file: no id may repeat (when duplicate ids
    /// fail), no resolved path may repeat (when duplicate paths fail), and
    /// every resolved path must be a file. The first broken one is reported.
    pub fn check_invariants(&self, is_file: &Vec<bool>) -> (r: Result<(), IndexError>)
        requires
            is_file@.len() == self.csv_files@.len(),
        ensures
            match r {
                Ok(_) => invariants_outcome(*self, is_file@, 0) is None,
                Err(e) => invariants_outcome(*self, is_file@, 0) == Some(e@),
            },
    {
        let ghost ids = entry_ids(*self);
        let ghost paths = entry_paths(*self);
        let mut seen_ids = StringHashSet::new();
        let mut seen_paths = StringHashSet::new();
        let mut k: usize = 0;
        while k < self.csv_files.len()
            invariant
                ids == entry_ids(*self),
                paths == entry_paths(*self),
                is_file@.len() == self.csv_files@.len(),
                k <= self.csv_files.len(),
                forall|x: Seq<char>| #[trigger] seen_ids@.contains(x) <==> ids.take(k as int).contains(x),
                forall|x: Seq<char>| #[trigger] seen_paths@.contains(x) <==> paths.take(k as int).contains(x),
                invariants_outcome(*self, is_file@, 0) == invariants_outcome(*self, is_file@, k as int),
            decreases self.csv_files.len() - k,
        {
            let entry = &self.csv_files[k];
            assert(ids[k as int] == entry.id@);
            assert(paths[k as int] == resolved(self.root, entry.path@));
            proof {
                lemma_take_push_contains(ids, k as int, entry.id@);
            }
            let new_id = seen_ids.insert(entry.id.clone());
            if !new_id && self.rules.fail_on_duplicate_ids {
                return Err(IndexError::DuplicateId { id: entry.id.clone() });
            }
            let effective = self.resolve_path(entry.path.as_str());
            proof {
                lemma_take_push_contains(paths, k as int, effective@);
            }
            let new_path = seen_paths.insert(effective.clone());
            if !new_path && self.rules.fail_on_duplicate_paths {
                return Err(IndexError::DuplicatePath { path: effective });
            }
            if !is_file[k] {
                return Err(IndexError::MissingFile { path: effective });
            }
            assert forall|x: Seq<char>| #[trigger] seen_ids@.contains(x) <==> ids.take(k + 1).contains(x) by {
                lemma_take_push_contains(ids, k as int, x);
            }
            assert forall|x: Seq<char>| #[trigger] seen_paths@.contains(x) <==> paths.take(k + 1).contains(x) by {
                lemma_take_push_contains(paths, k as int, x);
            }
            k = k + 1;
        }
        Ok(())
    }

    /// The entries keyed by id; where ids repeat, the last entry wins.
    pub fn by_id<'a>(&'a self) -> (m: StringHashMap<&'a CsvIndexEntry>)
        ensures
            m@ == by_id_map(self.csv_files@.map_values(|e: CsvIndexEntry| &e)),
    {
        let ghost refs = self.csv_files@.map_values(|e: CsvIndexEntry| &e);
        let mut m: StringHashMap<&'a CsvIndexEntry> = StringHashMap::new();
        let mut k: usize = 0;
        assert(refs.take(0) =~= Seq::<&CsvIndexEntry>::empty());
        while k < self.csv_files.len()
            invariant
                refs == self.csv_files@.map_values(|e: CsvIndexEntry| &e),
                k <= self.csv_files.len(),
                m@ == by_id_map(refs.take(k as int)),
            decreases self.csv_files.len() - k,
        {
            let entry = &self.csv_files[k];
            assert(refs.take(k + 1).drop_last() =~= refs.take(k as int));
            assert(refs.take(k + 1).last() == entry);
            m.insert(entry.id.clone(), entry);
            k = k + 1;
        }
        assert(refs.take(k as int) =~= refs);
        m
    }
}

proof fn lemma_invariants_hold_from(index: RepoIndex, is_file: Seq<bool>, k: int)
    requires
        0 <= k,
        is_file.len() == index.csv_files@.len(),
        invariants_outcome(index, is_file, k) is None,
    ensures
        forall|i: int| k <= i < index.csv_files@.len() ==> #[trigger] is_file[i],
        index.rules.fail_on_duplicate_ids ==> forall|i: int| k <= i < index.csv_files@.len()
            ==> !entry_ids(index).take(i).contains(#[trigger] entry_ids(index)[i]),
        index.rules.fail_on_duplicate_paths ==> forall|i: int| k <= i < index.csv_files@.len()
            ==> !entry_paths(index).take(i).contains(#[trigger] entry_paths(index)[i]),
    decreases index.csv_files@.len() - k,
{
    if k < index.csv_files@.len() {
        lemma_invariants_hold_from(index, is_file, k + 1);
    }
}

/// An index that passes its invariant check registers only files that exist,
/// and, where its rules forbid duplicates, never lists an id, or a resolved
/// path, twice.
pub proof fn law_checked_index_is_consistent(index: RepoIndex, is_file: Seq<bool>)
    requires
        is_file.len() == index.csv_files@.len(),
        invariants_outcome(index, is_file, 0) is None,
    ensures
        forall|i: int| 0 <= i < index.csv_files@.len() ==> #[trigger] is_file[i],
        index.rules.fail_on_duplicate_ids ==> forall|i: int, j: int| 0 <= i < j < index.csv_files@.len()
            ==> #[trigger] entry_ids(index)[i] != #[trigger] entry_ids(index)[j],
        index.rules.fail_on_duplicate_paths ==> forall|i: int, j: int| 0 <= i < j < index.csv_files@.len()
            ==> #[trigger] entry_paths(index)[i] != #[trigger] entry_paths(index)[j],
{
    lemma_invariants_hold_from(index, is_file, 0);
    let ids = entry_ids(index);
    let paths = entry_paths(index);
    if index.rules.fail_on_duplicate_ids {
        assert forall|i: int, j: int| 0 <= i < j < index.csv_files@.len() implies #[trigger] ids[i] != #[trigger] ids[j] by {
            assert(ids.take(j)[i] == ids[i]);
            assert(!ids.take(j).contains(ids[j]));
        }
    }
    if index.rules.fail_on_duplicate_paths {
        assert forall|i: int, j: int| 0 <= i < j < index.csv_files@.len() implies #[trigger] paths[i] != #[trigger] paths[j] by {
            assert(paths.take(j)[i] == paths[i]);
            assert(!paths.take(j).contains(paths[j]));
        }
    }
}

} // verus!
