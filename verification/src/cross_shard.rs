//! Cross-shard invariant contexts: which shard plays which role, and how the
//! rows of several shards are joined by a common key before an invariant's
//! kernel judges each joined key.
//!
//! The rows themselves (with their numeric fields) stay with the caller; this
//! module works on the rows' keys and answers with row positions.
use vstd::prelude::*;
use vstd::hash_map::StringHashMap;

use crate::error::{error_opt_view, semantic_view, ErrorView, ValidationError};
use crate::text::texts;

verus! {

/// The role a shard plays in an invariant context (such as `plan` or
/// `titan_metrics`).
#[derive(Debug, Clone, PartialEq, Eq, Hash)]
pub struct ShardRole(pub String);

/// Where a shard's rows come from.
#[derive(Debug, Clone)]
pub struct ShardConfig {
    pub doctype: String,
    pub path: String,
    pub key_column: String,
}

/// One invariant context: its name, the field that joins its shards, and its
/// shards keyed by the name of their role.
pub struct ContextConfig {
    pub name: String,
    pub key_field: String,
    pub shards: StringHashMap<ShardConfig>,
}

/// The plan of region links of a Titan context.
pub struct RegionLinkPlan2026v1 {}

/// The end-to-end delay bounds of a Titan context.
pub struct EFDelayBound2026v1 {}

/// The measured metrics of a Titan context.
pub struct TitanMetrics2026v1 {}

/// The error for a context that has no shard in role `role`.
pub open spec fn missing_shard_view(role: Seq<char>) -> ErrorView {
    semantic_view("CONTEXT_SHARD_MISSING"@, "context missing shard '"@ + role + "'"@)
}

/// The first of the roles `a`, `b`, `c` (in that order) that has no shard.
pub open spec fn roles_outcome(shards: Map<Seq<char>, ShardConfig>, a: Seq<char>, b: Seq<char>, c: Seq<char>) -> Option<ErrorView> {
    if !shards.contains_key(a) {
        Some(missing_shard_view(a))
    } else if !shards.contains_key(b) {
        Some(missing_shard_view(b))
    } else if !shards.contains_key(c) {
        Some(missing_shard_view(c))
    } else {
        None
    }
}

/// The shards a lookup of roles `a`, `b`, `c` gives: all three configurations,
/// or the error of the first missing role.
pub open spec fn roles_lookup(
    shards: Map<Seq<char>, ShardConfig>,
    a: Seq<char>,
    b: Seq<char>,
    c: Seq<char>,
    r: Result<(&ShardConfig, &ShardConfig, &ShardConfig), ValidationError>,
) -> bool {
    match r {
        Ok((x, y, z)) => {
            &&& roles_outcome(shards, a, b, c) is None
            &&& *x == shards[a]
            &&& *y == shards[b]
            &&& *z == shards[c]
        },
        Err(e) => roles_outcome(shards, a, b, c) == Some(e@),
    }
}

impl ContextConfig {
    /// A context with no shards yet.
    pub fn new(name: String, key_field: String) -> (c: Self)
        ensures
            c.name == name,
            c.key_field == key_field,
            c.shards@ == Map::<Seq<char>, ShardConfig>::empty(),
    {
        ContextConfig { name, key_field, shards: StringHashMap::new() }
    }

    /// Puts `shard` in role `role`, replacing the shard that held it.
    pub fn insert_shard(&mut self, role: ShardRole, shard: ShardConfig)
        ensures
            final(self).name == old(self).name,
            final(self).key_field == old(self).key_field,
            final(self).shards@ == old(self).shards@.insert(role.0@, shard),
    {
        self.shards.insert(role.0, shard);
    }

    /// The shard in role `role`, or the error that the context lacks it.
    pub fn shard(&self, role: &str) -> (r: Result<&ShardConfig, ValidationError>)
        ensures
            match r {
                Ok(c) => self.shards@.contains_key(role@) && *c == self.shards@[role@],
                Err(e) => !self.shards@.contains_key(role@) && e@ == missing_shard_view(role@),
            },
    {
        match self.shards.get(role) {
            Some(c) => Ok(c),
            None => {
                let mut m = String::from_str("context missing shard '");
                m.append(role);
                m.append("'");
                Err(ValidationError::semantic("CONTEXT_SHARD_MISSING", m))
            },
        }
    }

    /// The shards in roles `a`, `b` and `c`, looked up in that order.
    pub fn shards_in_roles(&self, a: &str, b: &str, c: &str) -> (r: Result<(&ShardConfig, &ShardConfig, &ShardConfig), ValidationError>)
        ensures
            roles_lookup(self.shards@, a@, b@, c@, r),
    {
        let x = match self.shard(a) {
            Ok(x) => x,
            Err(e) => return Err(e),
        };
        let y = match self.shard(b) {
            Ok(y) => y,
            Err(e) => return Err(e),
        };
        let z = match self.shard(c) {
            Ok(z) => z,
            Err(e) => return Err(e),
        };
        Ok((x, y, z))
    }

    /// The shards of the Lyapunov non-expansion invariant: `plan`,
    /// `titan_delay` and `titan_metrics`.
    pub fn lyapunov_shards(&self) -> (r: Result<(&ShardConfig, &ShardConfig, &ShardConfig), ValidationError>)
        ensures
            roles_lookup(self.shards@, "plan"@, "titan_delay"@, "titan_metrics"@, r),
    {
        self.shards_in_roles("plan", "titan_delay", "titan_metrics")
    }

    /// The shards of the cross-plane envelope invariant: `titan_metrics`,
    /// `water_corridor` and `sewer_corridor`.
    pub fn envelope_shards(&self) -> (r: Result<(&ShardConfig, &ShardConfig, &ShardConfig), ValidationError>)
        ensures
            roles_lookup(self.shards@, "titan_metrics"@, "water_corridor"@, "sewer_corridor"@, r),
    {
        self.shards_in_roles("titan_metrics", "water_corridor", "sewer_corridor")
    }
}

/// Each key of `keys` mapped to the position of its last occurrence: the row
/// that a key-to-row map filled in reading order keeps for it.
pub open spec fn last_rows(keys: Seq<Seq<char>>) -> Map<Seq<char>, usize>
    decreases keys.len(),
{
    if keys.len() == 0 {
        Map::empty()
    } else {
        last_rows(keys.drop_last()).insert(keys.last(), (keys.len() - 1) as usize)
    }
}

/// The error for a joined key that shard `label` has no row for.
pub open spec fn missing_row_view(label: Seq<char>, key: Seq<char>) -> ErrorView {
    semantic_view("CONTEXT_ROW_MISSING"@, "missing "@ + label + " row for key "@ + key)
}

/// The join of the primary keys `p` with the keys `a` and `b` of two partner
/// shards (named `la` and `lb` in errors), from primary row `i` on.
///
/// Each key of the primary shard is joined once, at its last row. A key that
/// the first partner lacks, or else the second, ends the join with that
/// error; otherwise the key's rows in the three shards (the last of each) are
/// joined, and the join goes on with the next primary row.
pub open spec fn join_from(
    p: Seq<Seq<char>>,
    a: Seq<Seq<char>>,
    la: Seq<char>,
    b: Seq<Seq<char>>,
    lb: Seq<char>,
    i: int,
) -> (Seq<(usize, usize, usize)>, Option<ErrorView>)
    decreases p.len() - i,
{
    if i < 0 || i >= p.len() {
        (Seq::empty(), None)
    } else {
        let k = p[i];
        if last_rows(p)[k] != i {
            join_from(p, a, la, b, lb, i + 1)
        } else if !last_rows(a).contains_key(k) {
            (Seq::empty(), Some(missing_row_view(la, k)))
        } else if !last_rows(b).contains_key(k) {
            (Seq::empty(), Some(missing_row_view(lb, k)))
        } else {
            let rest = join_from(p, a, la, b, lb, i + 1);
            (seq![(i as usize, last_rows(a)[k], last_rows(b)[k])] + rest.0, rest.1)
        }
    }
}

/// The rows of three shards joined by key, in the order the primary shard
/// gives its keys: for each key, the positions of its row in the primary,
/// first and second shard. `missing` is the error that ended the join early,
/// if one did; the rows before it are still to be judged.
pub struct KeyJoin {
    pub rows: Vec<(usize, usize, usize)>,
    pub missing: Option<ValidationError>,
}

proof fn lemma_last_rows(keys: Seq<Seq<char>>)
    requires
        keys.len() <= usize::MAX,
    ensures
        forall|j: int| 0 <= j < keys.len() ==> #[trigger] last_rows(keys).contains_key(keys[j]),
        forall|k: Seq<char>| #[trigger] last_rows(keys).contains_key(k) ==> {
            let v = last_rows(keys)[k] as int;
            &&& 0 <= v < keys.len()
            &&& keys[v] == k
            &&& forall|j: int| v < j < keys.len() ==> keys[j] != k
        },
    decreases keys.len(),
{
    if keys.len() > 0 {
        let d = keys.drop_last();
        let n = keys.len() - 1;
        lemma_last_rows(d);
        assert(last_rows(keys) == last_rows(d).insert(keys.last(), n as usize));
        assert forall|j: int| 0 <= j < keys.len() implies #[trigger] last_rows(keys).contains_key(keys[j]) by {
            if j < n {
                assert(d[j] == keys[j]);
                assert(last_rows(d).contains_key(d[j]));
            }
        }
        assert forall|k: Seq<char>| #[trigger] last_rows(keys).contains_key(k) implies {
            let v = last_rows(keys)[k] as int;
            &&& 0 <= v < keys.len()
            &&& keys[v] == k
            &&& forall|j: int| v < j < keys.len() ==> keys[j] != k
        } by {
            if k == keys.last() {
                assert(last_rows(keys)[k] == n as usize);
                assert(keys[n] == keys.last());
            } else {
                assert(last_rows(d).contains_key(k));
                let v = last_rows(d)[k] as int;
                assert(last_rows(keys)[k] == last_rows(d)[k]);
                assert(d[v] == k);
                assert(keys[v] == d[v]);
                assert forall|j: int| v < j < keys.len() implies keys[j] != k by {
                    if j < n {
                        assert(d[j] == keys[j]);
                    }
                }
            }
        }
    }
}

proof fn lemma_join_rows(
    p: Seq<Seq<char>>,
    a: Seq<Seq<char>>,
    la: Seq<char>,
    b: Seq<Seq<char>>,
    lb: Seq<char>,
    i: int,
)
    requires
        p.len() <= usize::MAX,
        0 <= i,
    ensures
        forall|j: int| 0 <= j < join_from(p, a, la, b, lb, i).0.len() ==> {
            let r = #[trigger] join_from(p, a, la, b, lb, i).0[j];
            &&& i <= r.0 < p.len()
            &&& last_rows(p)[p[r.0 as int]] == r.0
            &&& last_rows(a).contains_key(p[r.0 as int])
            &&& r.1 == last_rows(a)[p[r.0 as int]]
            &&& last_rows(b).contains_key(p[r.0 as int])
            &&& r.2 == last_rows(b)[p[r.0 as int]]
        },
        forall|j1: int, j2: int| 0 <= j1 < j2 < join_from(p, a, la, b, lb, i).0.len() ==>
            (#[trigger] join_from(p, a, la, b, lb, i).0[j1]).0 < (#[trigger] join_from(p, a, la, b, lb, i).0[j2]).0,
        join_from(p, a, la, b, lb, i).1 is None ==> forall|m: int| #![trigger p[m]] i <= m < p.len() ==>
            exists|j: int| 0 <= j < join_from(p, a, la, b, lb, i).0.len()
                && (#[trigger] join_from(p, a, la, b, lb, i).0[j]).0 == last_rows(p)[p[m]],
    decreases p.len() - i,
{
    if i < p.len() {
        lemma_join_rows(p, a, la, b, lb, i + 1);
        lemma_last_rows(p);
        let k = p[i];
        let rest = join_from(p, a, la, b, lb, i + 1);
        let here = join_from(p, a, la, b, lb, i);
        if last_rows(p)[k] != i {
            assert(here == rest);
            if here.1 is None {
                assert forall|m: int| #![trigger p[m]] i <= m < p.len() implies
                    exists|j: int| 0 <= j < here.0.len() && (#[trigger] here.0[j]).0 == last_rows(p)[p[m]] by {
                    if m == i {
                        assert(last_rows(p).contains_key(p[i]));
                        let l = last_rows(p)[k] as int;
                        assert(p[l] == k);
                        assert(l > i);
                        assert(last_rows(p)[p[l]] == l);
                    }
                }
            }
        } else if last_rows(a).contains_key(k) && last_rows(b).contains_key(k) {
            let t = (i as usize, last_rows(a)[k], last_rows(b)[k]);
            assert(here.0 == seq![t] + rest.0);
            assert forall|j: int| 0 < j < here.0.len() implies #[trigger] here.0[j] == rest.0[j - 1] by {}
            if here.1 is None {
                assert forall|m: int| #![trigger p[m]] i <= m < p.len() implies
                    exists|j: int| 0 <= j < here.0.len() && (#[trigger] here.0[j]).0 == last_rows(p)[p[m]] by {
                    if m == i {
                        assert(here.0[0] == t);
                    } else {
                        let j = choose|j: int| 0 <= j < rest.0.len() && (#[trigger] rest.0[j]).0 == last_rows(p)[p[m]];
                        assert(here.0[j + 1] == rest.0[j]);
                    }
                }
            }
        }
    }
}

/// Joining by key pairs rows that share their key. Each joined entry names,
/// in each of the three shards, the last row with one and the same key; the
/// entries follow the primary shard's rows, so no key is joined twice; and a
/// join that no missing row ended has joined every key of the primary shard.
pub proof fn law_join_pairs_rows_of_one_key(
    p: Seq<Seq<char>>,
    a: Seq<Seq<char>>,
    la: Seq<char>,
    b: Seq<Seq<char>>,
    lb: Seq<char>,
)
    requires
        p.len() <= usize::MAX,
        a.len() <= usize::MAX,
        b.len() <= usize::MAX,
    ensures
        forall|j: int| 0 <= j < join_from(p, a, la, b, lb, 0).0.len() ==> {
            let r = #[trigger] join_from(p, a, la, b, lb, 0).0[j];
            &&& r.0 < p.len() && r.1 < a.len() && r.2 < b.len()
            &&& a[r.1 as int] == p[r.0 as int]
            &&& b[r.2 as int] == p[r.0 as int]
            &&& forall|x: int| r.0 < x < p.len() ==> #[trigger] p[x] != p[r.0 as int]
            &&& forall|x: int| r.1 < x < a.len() ==> #[trigger] a[x] != p[r.0 as int]
            &&& forall|x: int| r.2 < x < b.len() ==> #[trigger] b[x] != p[r.0 as int]
        },
        forall|j1: int, j2: int| 0 <= j1 < j2 < join_from(p, a, la, b, lb, 0).0.len() ==>
            p[(#[trigger] join_from(p, a, la, b, lb, 0).0[j1]).0 as int]
                != p[(#[trigger] join_from(p, a, la, b, lb, 0).0[j2]).0 as int],
        join_from(p, a, la, b, lb, 0).1 is None ==> forall|m: int| #![trigger p[m]] 0 <= m < p.len() ==>
            exists|j: int| 0 <= j < join_from(p, a, la, b, lb, 0).0.len()
                && p[(#[trigger] join_from(p, a, la, b, lb, 0).0[j]).0 as int] == p[m],
{
    lemma_join_rows(p, a, la, b, lb, 0);
    lemma_last_rows(p);
    lemma_last_rows(a);
    lemma_last_rows(b);
    let rows = join_from(p, a, la, b, lb, 0).0;
    assert forall|j: int| 0 <= j < rows.len() implies {
        let r = #[trigger] rows[j];
        &&& r.0 < p.len() && r.1 < a.len() && r.2 < b.len()
        &&& a[r.1 as int] == p[r.0 as int]
        &&& b[r.2 as int] == p[r.0 as int]
        &&& forall|x: int| r.0 < x < p.len() ==> #[trigger] p[x] != p[r.0 as int]
        &&& forall|x: int| r.1 < x < a.len() ==> #[trigger] a[x] != p[r.0 as int]
        &&& forall|x: int| r.2 < x < b.len() ==> #[trigger] b[x] != p[r.0 as int]
    } by {
        let r = rows[j];
        let k = p[r.0 as int];
        assert(last_rows(p).contains_key(k));
        assert(last_rows(a).contains_key(k));
        assert(last_rows(b).contains_key(k));
    }
    assert forall|j1: int, j2: int| 0 <= j1 < j2 < rows.len() implies
        p[(#[trigger] rows[j1]).0 as int] != p[(#[trigger] rows[j2]).0 as int] by {
        let x1 = rows[j1].0 as int;
        let x2 = rows[j2].0 as int;
        assert(x1 < x2);
        assert(last_rows(p)[p[x1]] == x1);
        assert(last_rows(p)[p[x2]] == x2);
    }
    if join_from(p, a, la, b, lb, 0).1 is None {
        assert forall|m: int| #![trigger p[m]] 0 <= m < p.len() implies
            exists|j: int| 0 <= j < rows.len() && p[(#[trigger] rows[j]).0 as int] == p[m] by {
            let j = choose|j: int| 0 <= j < rows.len() && (#[trigger] rows[j]).0 == last_rows(p)[p[m]];
            assert(last_rows(p).contains_key(p[m]));
            assert(p[last_rows(p)[p[m]] as int] == p[m]);
        }
    }
}

/// Maps each key to the position of its last occurrence in `keys`.
fn last_row_index(keys: &Vec<String>) -> (m: StringHashMap<usize>)
    ensures
        m@ == last_rows(texts(keys@)),
{
    let ghost t = texts(keys@);
    let mut m: StringHashMap<usize> = StringHashMap::new();
    let mut i: usize = 0;
    while i < keys.len()
        invariant
            t == texts(keys@),
            i <= keys.len(),
            m@ == last_rows(t.take(i as int)),
        decreases keys.len() - i,
    {
        assert(t.take(i + 1).drop_last() =~= t.take(i as int));
        assert(t.take(i + 1).last() == keys@[i as int]@);
        m.insert(keys[i].clone(), i);
        i = i + 1;
    }
    assert(t.take(keys.len() as int) =~= t);
    m
}

/// The error that shard `label` has no row for `key`.
fn missing_row_error(label: &str, key: &str) -> (e: ValidationError)
    ensures
        e@ == missing_row_view(label@, key@),
{
    let mut m = String::from_str("missing ");
    m.append(label);
    m.append(" row for key ");
    m.append(key);
    ValidationError::semantic("CONTEXT_ROW_MISSING", m)
}

/// Joins the rows of a primary shard, whose row keys are `primary`, with the
/// rows of two partner shards (row keys `first` and `second`, named
/// `first_label` and `second_label` in errors), as [`join_from`] states.
pub fn join_by_key(
    primary: &Vec<String>,
    first: &Vec<String>,
    first_label: &str,
    second: &Vec<String>,
    second_label: &str,
) -> (j: KeyJoin)
    ensures
        j.rows@ == join_from(texts(primary@), texts(first@), first_label@, texts(second@), second_label@, 0).0,
        error_opt_view(j.missing) == join_from(texts(primary@), texts(first@), first_label@, texts(second@), second_label@, 0).1,
{
    let ghost p = texts(primary@);
    let ghost a = texts(first@);
    let ghost b = texts(second@);
    let ghost la = first_label@;
    let ghost lb = second_label@;
    let pm = last_row_index(primary);
    let am = last_row_index(first);
    let bm = last_row_index(second);
    let n = primary.len();
    proof {
        assert(p.len() == n);
        lemma_last_rows(p);
    }
    let mut rows: Vec<(usize, usize, usize)> = Vec::new();
    let mut i: usize = 0;
    while i < primary.len()
        invariant
            p == texts(primary@),
            a == texts(first@),
            b == texts(second@),
            la == first_label@,
            lb == second_label@,
            pm@ == last_rows(p),
            am@ == last_rows(a),
            bm@ == last_rows(b),
            forall|j: int| 0 <= j < p.len() ==> #[trigger] last_rows(p).contains_key(p[j]),
            i <= primary.len(),
            join_from(p, a, la, b, lb, 0).0 == rows@ + join_from(p, a, la, b, lb, i as int).0,
            join_from(p, a, la, b, lb, 0).1 == join_from(p, a, la, b, lb, i as int).1,
        decreases primary.len() - i,
    {
        let k = primary[i].as_str();
        assert(p[i as int] == k@);
        assert(last_rows(p).contains_key(p[i as int]));
        let last = *pm.get(k).unwrap();
        if last == i {
            match am.get(k) {
                None => {
                    assert(rows@ + Seq::<(usize, usize, usize)>::empty() =~= rows@);
                    return KeyJoin { rows, missing: Some(missing_row_error(first_label, k)) };
                },
                Some(ai) => match bm.get(k) {
                    None => {
                        assert(rows@ + Seq::<(usize, usize, usize)>::empty() =~= rows@);
                        return KeyJoin { rows, missing: Some(missing_row_error(second_label, k)) };
                    },
                    Some(bi) => {
                        let ghost before = rows@;
                        let ghost rest = join_from(p, a, la, b, lb, i + 1).0;
                        rows.push((i, *ai, *bi));
                        assert(before + (seq![(i, *ai, *bi)] + rest) =~= rows@ + rest);
                    },
                },
            }
        }
        i = i + 1;
    }
    assert(rows@ + Seq::<(usize, usize, usize)>::empty() =~= rows@);
    KeyJoin { rows, missing: None }
}

/// The join of the Lyapunov non-expansion invariant: each key of the
/// `titan_metrics` rows (keys `metrics`) with its `titan_delay` row (keys
/// `delay`); a key must also have a `plan` row (keys `plan`).
pub fn join_lyapunov(metrics: &Vec<String>, delay: &Vec<String>, plan: &Vec<String>) -> (j: KeyJoin)
    ensures
        j.rows@ == join_from(texts(metrics@), texts(delay@), "titan_delay"@, texts(plan@), "RegionLinkPlan"@, 0).0,
        error_opt_view(j.missing) == join_from(texts(metrics@), texts(delay@), "titan_delay"@, texts(plan@), "RegionLinkPlan"@, 0).1,
{
    join_by_key(metrics, delay, "titan_delay", plan, "RegionLinkPlan")
}

/// The join of the cross-plane envelope invariant: each key of the
/// `titan_metrics` rows (keys `metrics`) with its WATER and SEWER corridor
/// rows (keys `water` and `sewer`).
pub fn join_envelope(metrics: &Vec<String>, water: &Vec<String>, sewer: &Vec<String>) -> (j: KeyJoin)
    ensures
        j.rows@ == join_from(texts(metrics@), texts(water@), "WATER corridor"@, texts(sewer@), "SEWER corridor"@, 0).0,
        error_opt_view(j.missing) == join_from(texts(metrics@), texts(water@), "WATER corridor"@, texts(sewer@), "SEWER corridor"@, 0).1,
{
    join_by_key(metrics, water, "WATER corridor", sewer, "SEWER corridor")
}

} // verus!
