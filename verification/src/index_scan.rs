//! Scanning the repository against a loaded index: every CSV file the walk
//! discovers must be registered.
use vstd::prelude::*;

use crate::index::{entry_paths, resolved, RepoIndex};
use crate::paths::{extension_of, path_extension};
use crate::scan::{kept, listed_before, listed_in};
use crate::text::{str_eq, texts};

verus! {

/// Why a scan failed.
#[derive(Debug)]
pub enum ScanError {
    /// CSV files found on disk that the index does not register.
    Unregistered(Vec<String>),
}

/// The walked files that are CSV files (their extension is `csv`), in order.
pub open spec fn csv_files_of(walked: Seq<Seq<char>>) -> Seq<Seq<char>> {
    kept(walked, |i: int| extension_of(walked[i]) == Some("csv"@), walked.len() as int)
}

/// Which discovered CSV files are reported: the first of their path, and not
/// a registered (resolved) path.
pub open spec fn unregistered_keep(disc: Seq<Seq<char>>, idx: Seq<Seq<char>>) -> spec_fn(int) -> bool {
    |i: int| !listed_before(disc, disc[i], i) && !listed_before(idx, disc[i], idx.len() as int)
}

/// The discovered CSV files, each once, that the index does not register.
pub open spec fn unregistered_csv_files(index: RepoIndex, walked: Seq<Seq<char>>) -> Seq<Seq<char>> {
    let disc = csv_files_of(walked);
    kept(disc, unregistered_keep(disc, entry_paths(index)), disc.len() as int)
}

/// The directory the walk starts from: the index root, or `.`.
pub fn walk_root(index: &RepoIndex) -> (r: String)
    ensures
        match index.root {
            Some(root) => r@ == root@,
            None => r@ == "."@,
        },
{
    match &index.root {
        Some(root) => root.clone(),
        None => String::from_str("."),
    }
}

/// Checks the files `walked` that the walk from [`walk_root`] found (with the
/// index's include and exclude globs): the CSV files among them that the
/// index does not register fail the scan when the rules say so.
pub fn scan_repo(index: &RepoIndex, walked: &Vec<String>) -> (r: Result<(), ScanError>)
    ensures
        match r {
            Ok(_) => unregistered_csv_files(*index, texts(walked@)).len() == 0
                || !index.rules.fail_on_unregistered_csv,
            Err(ScanError::Unregistered(files)) => texts(files@) == unregistered_csv_files(*index, texts(walked@))
                && files@.len() > 0 && index.rules.fail_on_unregistered_csv,
        },
{
    let ghost wv = texts(walked@);
    let mut disc: Vec<String> = Vec::new();
    let mut i: usize = 0;
    while i < walked.len()
        invariant
            wv == texts(walked@),
            i <= walked.len(),
            texts(disc@) == kept(wv, |i: int| extension_of(wv[i]) == Some("csv"@), i as int),
        decreases walked.len() - i,
    {
        assert(wv[i as int] == walked@[i as int]@);
        let is_csv = match path_extension(walked[i].as_str()) {
            Some(e) => str_eq(e.as_str(), "csv"),
            None => false,
        };
        if is_csv {
            disc.push(walked[i].clone());
        }
        assert(texts(disc@) =~= kept(wv, |i: int| extension_of(wv[i]) == Some("csv"@), i + 1));
        i = i + 1;
    }
    let mut idx: Vec<String> = Vec::new();
    let mut k: usize = 0;
    while k < index.csv_files.len()
        invariant
            k <= index.csv_files.len(),
            idx@.len() == k,
            texts(idx@) == entry_paths(*index).take(k as int),
        decreases index.csv_files.len() - k,
    {
        let p = index.resolve_path(index.csv_files[k].path.as_str());
        assert(entry_paths(*index)[k as int] == resolved(index.root, index.csv_files@[k as int].path@));
        idx.push(p);
        assert(texts(idx@) =~= entry_paths(*index).take(k + 1));
        k = k + 1;
    }
    assert(entry_paths(*index).take(k as int) =~= entry_paths(*index));
    let ghost dv = texts(disc@);
    let ghost iv = texts(idx@);
    let mut unregistered: Vec<String> = Vec::new();
    let mut i: usize = 0;
    while i < disc.len()
        invariant
            dv == texts(disc@),
            iv == texts(idx@),
            i <= disc.len(),
            texts(unregistered@) == kept(dv, unregistered_keep(dv, iv), i as int),
        decreases disc.len() - i,
    {
        assert(dv[i as int] == disc@[i as int]@);
        if !listed_in(&disc, disc[i].as_str(), i) && !listed_in(&idx, disc[i].as_str(), idx.len()) {
            unregistered.push(disc[i].clone());
        }
        assert(texts(unregistered@) =~= kept(dv, unregistered_keep(dv, iv), i + 1));
        i = i + 1;
    }
    if unregistered.len() > 0 && index.rules.fail_on_unregistered_csv {
        return Err(ScanError::Unregistered(unregistered));
    }
    Ok(())
}

} // verus!
