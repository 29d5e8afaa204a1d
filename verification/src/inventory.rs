//! The validation inventory: for each registered CSV file, its columns, its
//! row count and a short digest of its newline-normalized content.
use vstd::prelude::*;
use vstd::slice::{slice_subrange, slice_to_vec};
use vstd::string::StringSliceAdditionalSpecFns;
use vstd::utf8::{decode_utf8, encode_utf8_decode_utf8, valid_utf8};

use crate::csv_read::{csv_table_of, read_csv_table};
use crate::digest::{digest_hex8, hex_text, sha256_of};
use crate::paths::{join_path, joined_path};
use crate::scan::{scan_root_of, CsvFileEntry, RepoIndex};
use crate::text::{join_texts, joined, texts, trim, trimmed, utf8_error_text, utf8_str};

verus! {

/// `b` with every CR LF pair and every lone CR turned into LF.
pub open spec fn normalized(b: Seq<u8>) -> Seq<u8>
    decreases b.len(),
{
    if b.len() == 0 {
        Seq::empty()
    } else if b[0] == 13u8 {
        if b.len() > 1 && b[1] == 10u8 {
            seq![10u8] + normalized(b.skip(2))
        } else {
            seq![10u8] + normalized(b.skip(1))
        }
    } else {
        seq![b[0]] + normalized(b.skip(1))
    }
}

/// Normalizes line endings: CR LF becomes LF, and a lone CR becomes LF too.
pub fn normalize_newlines(bytes: Vec<u8>) -> (out: Vec<u8>)
    ensures
        out@ == normalized(bytes@),
{
    let mut out: Vec<u8> = Vec::new();
    let mut i: usize = 0;
    let n = bytes.len();
    assert(bytes@.skip(0) =~= bytes@);
    while i < n
        invariant
            n == bytes@.len(),
            i <= n,
            out@ + normalized(bytes@.skip(i as int)) == normalized(bytes@),
        decreases n - i,
    {
        let ghost rest = bytes@.skip(i as int);
        if bytes[i] == 13u8 {
            if i + 1 < n && bytes[i + 1] == 10u8 {
                assert(rest.skip(2) =~= bytes@.skip(i + 2));
                out.push(10u8);
                i = i + 2;
            } else {
                assert(rest.skip(1) =~= bytes@.skip(i + 1));
                out.push(10u8);
                i = i + 1;
            }
        } else {
            assert(rest.skip(1) =~= bytes@.skip(i + 1));
            out.push(bytes[i]);
            i = i + 1;
        }
        assert(out@ + normalized(bytes@.skip(i as int)) =~= normalized(bytes@));
    }
    assert(normalized(bytes@.skip(n as int)) =~= Seq::<u8>::empty());
    assert(out@ + Seq::<u8>::empty() =~= out@);
    out
}

proof fn lemma_normalized_has_no_cr(b: Seq<u8>)
    ensures
        forall|i: int| 0 <= i < normalized(b).len() ==> #[trigger] normalized(b)[i] != 13u8,
    decreases b.len(),
{
    if b.len() > 0 {
        let head: u8 = if b[0] == 13u8 { 10u8 } else { b[0] };
        let rest = if b[0] == 13u8 && b.len() > 1 && b[1] == 10u8 { b.skip(2) } else { b.skip(1) };
        lemma_normalized_has_no_cr(rest);
        assert(normalized(b) == seq![head] + normalized(rest));
        assert forall|i: int| 0 <= i < normalized(b).len() implies #[trigger] normalized(b)[i] != 13u8 by {
            if i > 0 {
                assert(normalized(b)[i] == normalized(rest)[i - 1]);
            }
        }
    }
}

proof fn lemma_normalized_fixes_cr_free(b: Seq<u8>)
    requires
        forall|i: int| 0 <= i < b.len() ==> #[trigger] b[i] != 13u8,
    ensures
        normalized(b) == b,
    decreases b.len(),
{
    if b.len() > 0 {
        lemma_normalized_fixes_cr_free(b.skip(1));
        assert(seq![b[0]] + b.skip(1) =~= b);
    }
}

/// Newline normalization leaves no carriage return behind and is idempotent:
/// normalizing a normalized text changes nothing.
pub proof fn law_normalize_newlines_is_idempotent(b: Seq<u8>)
    ensures
        forall|i: int| 0 <= i < normalized(b).len() ==> #[trigger] normalized(b)[i] != 13u8,
        normalized(normalized(b)) == normalized(b),
{
    lemma_normalized_has_no_cr(b);
    lemma_normalized_fixes_cr_free(normalized(b));
}

/// The pieces of `b` between LF bytes (the empty text has one empty piece).
pub open spec fn split_lf(b: Seq<u8>) -> Seq<Seq<u8>>
    decreases b.len(),
{
    if b.len() == 0 {
        seq![Seq::<u8>::empty()]
    } else {
        let rest = split_lf(b.drop_last());
        if b.last() == 10u8 {
            rest.push(Seq::<u8>::empty())
        } else {
            rest.update(rest.len() - 1, rest.last().push(b.last()))
        }
    }
}

proof fn lemma_split_lf_nonempty(b: Seq<u8>)
    ensures
        split_lf(b).len() >= 1,
    decreases b.len(),
{
    if b.len() > 0 {
        lemma_split_lf_nonempty(b.drop_last());
    }
}

/// A line without the CR that ends it, if any.
pub open spec fn strip_cr(l: Seq<u8>) -> Seq<u8> {
    if l.len() > 0 && l.last() == 13u8 {
        l.drop_last()
    } else {
        l
    }
}

/// The lines of a text as `BufRead::lines` yields them: every piece that an
/// LF ends, without the LF and a CR before it, then the last piece unless it
/// is empty.
pub open spec fn text_lines(b: Seq<u8>) -> Seq<Seq<u8>> {
    let p = split_lf(b);
    let body = p.drop_last().map_values(|l: Seq<u8>| strip_cr(l));
    if p.last().len() == 0 {
        body
    } else {
        body.push(p.last())
    }
}

/// The byte contents of a list of byte vectors.
pub open spec fn byte_rows(v: Seq<Vec<u8>>) -> Seq<Seq<u8>> {
    v.map_values(|r: Vec<u8>| r@)
}

/// The message of a line that is not UTF-8.
pub open spec fn invalid_line_message() -> Seq<char> {
    "stream did not contain valid UTF-8"@
}

/// How many of the lines after the first, among the first `n`, are not blank.
pub open spec fn nonblank_after_first(lines: Seq<Seq<u8>>, n: int) -> nat
    decreases n,
{
    if n <= 1 {
        0
    } else {
        nonblank_after_first(lines, n - 1) + if trimmed(decode_utf8(lines[n - 1])).len() > 0 { 1nat } else { 0nat }
    }
}

/// What analyzing a CSV text gives: the header columns (read with the `csv`
/// crate from the first line) and the number of lines that are not blank,
/// header included; or the error met first.
pub open spec fn analysis_of(content: Seq<u8>) -> Result<(Seq<Seq<char>>, nat), Seq<char>> {
    let lines = text_lines(content);
    if lines.len() == 0 {
        Ok((Seq::empty(), 0))
    } else if !valid_utf8(lines[0]) {
        Err(invalid_line_message())
    } else {
        match csv_table_of(lines[0], 44, false).header {
            Err(e) => Err(e),
            Ok(h) => if exists|i: int| 1 <= i < lines.len() && !valid_utf8(#[trigger] lines[i]) {
                Err(invalid_line_message())
            } else {
                Ok((h, 1 + nonblank_after_first(lines, lines.len() as int)))
            },
        }
    }
}

fn lines_of(content: &[u8]) -> (lines: Vec<Vec<u8>>)
    ensures
        byte_rows(lines@) == text_lines(content@),
{
    let n = content.len();
    let mut done: Vec<Vec<u8>> = Vec::new();
    let mut cur: Vec<u8> = Vec::new();
    let mut i: usize = 0;
    assert(content@.take(0) =~= Seq::<u8>::empty());
    while i < n
        invariant
            n == content@.len(),
            i <= n,
            split_lf(content@.take(i as int)).len() == done@.len() + 1,
            byte_rows(done@) == split_lf(content@.take(i as int)).drop_last().map_values(|l: Seq<u8>| strip_cr(l)),
            cur@ == split_lf(content@.take(i as int)).last(),
        decreases n - i,
    {
        let ghost before = split_lf(content@.take(i as int));
        assert(content@.take(i + 1).drop_last() =~= content@.take(i as int));
        assert(content@.take(i + 1).last() == content@[i as int]);
        proof {
            lemma_split_lf_nonempty(content@.take(i as int));
        }
        if content[i] == 10u8 {
            assert(split_lf(content@.take(i + 1)) == before.push(Seq::<u8>::empty()));
            assert(before =~= before.drop_last().push(before.last()));
            let mut line = cur;
            if line.len() > 0 && line[line.len() - 1] == 13u8 {
                line.pop();
            }
            assert(line@ == strip_cr(before.last()));
            let ghost dv = byte_rows(done@);
            done.push(line);
            cur = Vec::new();
            assert(byte_rows(done@) =~= dv.push(strip_cr(before.last())));
            assert(before.map_values(|l: Seq<u8>| strip_cr(l)) =~= before.drop_last().map_values(|l: Seq<u8>| strip_cr(l)).push(strip_cr(before.last())));
            assert(byte_rows(done@) =~= split_lf(content@.take(i + 1)).drop_last().map_values(|l: Seq<u8>| strip_cr(l)));
        } else {
            cur.push(content[i]);
            assert(byte_rows(done@) =~= split_lf(content@.take(i + 1)).drop_last().map_values(|l: Seq<u8>| strip_cr(l)));
        }
        i = i + 1;
    }
    assert(content@.take(n as int) =~= content@);
    if cur.len() > 0 {
        let ghost d = byte_rows(done@);
        done.push(cur);
        assert(byte_rows(done@) =~= d.push(split_lf(content@).last()));
    }
    done
}

/// Analyzes a CSV text: its header columns, read with the `csv` crate from
/// the first line, and the number of its lines that are not blank, header
/// included. A line that is not UTF-8 is an error, as is a header the reader
/// refuses.
pub fn analyze_csv(content: &[u8]) -> (r: Result<(Vec<String>, u64), String>)
    ensures
        match r {
            Ok((cols, n)) => analysis_of(content@) == Ok::<(Seq<Seq<char>>, nat), Seq<char>>((texts(cols@), n as nat)),
            Err(e) => analysis_of(content@) == Err::<(Seq<Seq<char>>, nat), Seq<char>>(e@),
        },
{
    let lines = lines_of(content);
    let ghost lv = byte_rows(lines@);
    if lines.len() == 0 {
        let cols: Vec<String> = Vec::new();
        assert(texts(cols@) =~= Seq::<Seq<char>>::empty());
        return Ok((cols, 0));
    }
    assert(lv[0] == lines@[0]@);
    let first = match utf8_str(lines[0].as_slice()) {
        Ok(s) => s,
        Err(_) => return Err(String::from_str("stream did not contain valid UTF-8")),
    };
    let table = read_csv_table(lines[0].as_slice(), 44, false);
    proof {
        encode_utf8_decode_utf8(first@);
    }
    let columns = match table.header {
        Ok(h) => h,
        Err(e) => return Err(e),
    };
    assert(csv_table_of(lv[0], 44, false).header == Ok::<Seq<Seq<char>>, Seq<char>>(texts(columns@)));
    let mut count: u64 = 1;
    let mut k: usize = 1;
    while k < lines.len()
        invariant
            lv == byte_rows(lines@),
            lv == text_lines(content@),
            lv.len() > 0,
            valid_utf8(lv[0]),
            csv_table_of(lv[0], 44, false).header == Ok::<Seq<Seq<char>>, Seq<char>>(texts(columns@)),
            1 <= k <= lines.len(),
            lines.len() <= usize::MAX,
            forall|i: int| 1 <= i < k ==> valid_utf8(#[trigger] lv[i]),
            count == 1 + nonblank_after_first(lv, k as int),
            count <= k,
        decreases lines.len() - k,
    {
        assert(lv[k as int] == lines@[k as int]@);
        let line = match utf8_str(lines[k].as_slice()) {
            Ok(s) => s,
            Err(_) => {
                assert(!valid_utf8(lv[k as int]));
                return Err(String::from_str("stream did not contain valid UTF-8"));
            },
        };
        proof {
            encode_utf8_decode_utf8(line@);
        }
        assert(line@ == decode_utf8(lv[k as int]));
        if !trim(line).is_empty() {
            count = count + 1;
        }
        k = k + 1;
    }
    Ok((columns, count))
}

/// One inventory line: a registered CSV file with its header columns (joined
/// with `|`), its non-blank line count, and the first eight hexadecimal digits
/// of the SHA-256 digest of its newline-normalized content.
#[derive(Debug)]
pub struct InventoryRow {
    pub id: String,
    pub path: String,
    pub columns: String,
    pub row_count: u64,
    pub digest_hex8: String,
    pub algorithm: String,
}

/// The mathematical value of an [`InventoryRow`].
pub struct InventoryRowView {
    pub id: Seq<char>,
    pub path: Seq<char>,
    pub columns: Seq<char>,
    pub row_count: nat,
    pub digest_hex8: Seq<char>,
    pub algorithm: Seq<char>,
}

impl View for InventoryRow {
    type V = InventoryRowView;

    open spec fn view(&self) -> InventoryRowView {
        InventoryRowView {
            id: self.id@,
            path: self.path@,
            columns: self.columns@,
            row_count: self.row_count as nat,
            digest_hex8: self.digest_hex8@,
            algorithm: self.algorithm@,
        }
    }
}

/// The value of a read file: its bytes, or the text of the read error.
pub open spec fn content_view(c: Result<Vec<u8>, String>) -> Result<Seq<u8>, Seq<char>> {
    match c {
        Ok(b) => Ok(b@),
        Err(m) => Err(m@),
    }
}

/// The inventory line of `entry` from what reading its file gave.
pub open spec fn inventory_row_of(entry: CsvFileEntry, content: Result<Seq<u8>, Seq<char>>) -> Result<InventoryRowView, Seq<char>> {
    match content {
        Err(m) => Err(m),
        Ok(raw) => {
            let norm = normalized(raw);
            if !valid_utf8(norm) {
                Err(utf8_error_text(norm))
            } else {
                match analysis_of(raw) {
                    Err(m) => Err(m),
                    Ok((cols, n)) => Ok(InventoryRowView {
                        id: entry.id@,
                        path: entry.path@,
                        columns: joined(cols, "|"@),
                        row_count: n,
                        digest_hex8: hex_text(sha256_of(norm)).take(8),
                        algorithm: "sha256"@,
                    }),
                }
            }
        },
    }
}

/// The inventory of the first `n` entries, or the first error.
pub open spec fn inventory_upto(
    entries: Seq<CsvFileEntry>,
    contents: Seq<Result<Vec<u8>, String>>,
    n: int,
) -> Result<Seq<InventoryRowView>, Seq<char>>
    decreases n,
{
    if n <= 0 {
        Ok(Seq::empty())
    } else {
        match inventory_upto(entries, contents, n - 1) {
            Err(m) => Err(m),
            Ok(rows) => match inventory_row_of(entries[n - 1], content_view(contents[n - 1])) {
                Err(m) => Err(m),
                Ok(r) => Ok(rows.push(r)),
            },
        }
    }
}

proof fn lemma_inventory_error_persists(
    entries: Seq<CsvFileEntry>,
    contents: Seq<Result<Vec<u8>, String>>,
    k: int,
    n: int,
)
    requires
        0 <= k <= n,
        inventory_upto(entries, contents, k) is Err,
    ensures
        inventory_upto(entries, contents, n) == inventory_upto(entries, contents, k),
    decreases n - k,
{
    if n > k {
        lemma_inventory_error_persists(entries, contents, k, n - 1);
    }
}

/// The files of the indexed entries under the repository at `repo_root`:
/// each entry's path under the index root (itself under `repo_root`).
pub fn inventory_paths(repo_root: &str, index: &RepoIndex) -> (paths: Vec<String>)
    ensures
        paths@.len() == index.csv_files@.len(),
        forall|i: int| 0 <= i < paths@.len() ==> #[trigger] paths@[i]@
            == joined_path(scan_root_of(repo_root@, *index), index.csv_files@[i].path@),
{
    let root = match &index.root {
        Some(r) => join_path(repo_root, r.as_str()),
        None => String::from_str(repo_root),
    };
    let mut paths: Vec<String> = Vec::new();
    let mut i: usize = 0;
    while i < index.csv_files.len()
        invariant
            root@ == scan_root_of(repo_root@, *index),
            i <= index.csv_files.len(),
            paths@.len() == i,
            forall|j: int| 0 <= j < i ==> #[trigger] paths@[j]@
                == joined_path(scan_root_of(repo_root@, *index), index.csv_files@[j].path@),
        decreases index.csv_files.len() - i,
    {
        paths.push(join_path(root.as_str(), index.csv_files[i].path.as_str()));
        i = i + 1;
    }
    paths
}

/// Builds the inventory of the indexed CSV files, given what reading each
/// entry's file (see [`inventory_paths`]) gave, entry by entry: the file's
/// content, newline-normalized, must be UTF-8; it is digested and analyzed.
/// The first error met is returned.
pub fn build_inventory(index: &RepoIndex, contents: &Vec<Result<Vec<u8>, String>>) -> (r: Result<Vec<InventoryRow>, String>)
    requires
        contents@.len() == index.csv_files@.len(),
    ensures
        match r {
            Ok(rows) => inventory_upto(index.csv_files@, contents@, contents@.len() as int)
                == Ok::<Seq<InventoryRowView>, Seq<char>>(rows@.map_values(|x: InventoryRow| x@)),
            Err(m) => inventory_upto(index.csv_files@, contents@, contents@.len() as int)
                == Err::<Seq<InventoryRowView>, Seq<char>>(m@),
        },
{
    let mut rows: Vec<InventoryRow> = Vec::new();
    let mut k: usize = 0;
    assert(rows@.map_values(|x: InventoryRow| x@) =~= Seq::<InventoryRowView>::empty());
    while k < contents.len()
        invariant
            contents@.len() == index.csv_files@.len(),
            k <= contents.len(),
            inventory_upto(index.csv_files@, contents@, k as int)
                == Ok::<Seq<InventoryRowView>, Seq<char>>(rows@.map_values(|x: InventoryRow| x@)),
        decreases contents.len() - k,
    {
        let entry = &index.csv_files[k];
        let raw = match &contents[k] {
            Ok(b) => b,
            Err(m) => {
                proof { lemma_inventory_error_persists(index.csv_files@, contents@, k + 1, contents@.len() as int); }
                return Err(m.clone());
            },
        };
        let norm = normalize_newlines(slice_to_vec(raw.as_slice()));
        match utf8_str(norm.as_slice()) {
            Ok(_) => {},
            Err(m) => {
                proof { lemma_inventory_error_persists(index.csv_files@, contents@, k + 1, contents@.len() as int); }
                return Err(m);
            },
        }
        let digest = digest_hex8(norm.as_slice());
        let (columns, row_count) = match analyze_csv(raw.as_slice()) {
            Ok(a) => a,
            Err(m) => {
                proof { lemma_inventory_error_persists(index.csv_files@, contents@, k + 1, contents@.len() as int); }
                return Err(m);
            },
        };
        let joined_columns = join_texts(&columns, "|");
        let row = InventoryRow {
            id: entry.id.clone(),
            path: entry.path.clone(),
            columns: joined_columns,
            row_count,
            digest_hex8: digest,
            algorithm: String::from_str("sha256"),
        };
        let ghost before = rows@.map_values(|x: InventoryRow| x@);
        rows.push(row);
        assert(rows@.map_values(|x: InventoryRow| x@) =~= before.push(row@));
        k = k + 1;
    }
    Ok(rows)
}

} // verus!
