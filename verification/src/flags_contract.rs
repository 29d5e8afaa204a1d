//! Contracts for compositional flag sets (such as neurorights flags): which
//! flags exist, which exclude each other, which imply others, and how many a
//! cell may carry.
use vstd::prelude::*;

use crate::error::{
    details2, details3, details_view, outcome_is, semantic_error, DetailValue, DetailView, ErrorView,
    ValidationError,
};
use crate::text::{decimal, decimal_text, split_on, split_text, text_in, texts, trim, trimmed};

verus! {

/// Contract for a compositional flag set.
#[derive(Debug, Clone)]
pub struct FlagRules {
    /// The flags that may appear.
    pub allowed: Vec<String>,
    /// Pairs of flags that may not appear together.
    pub exclusive: Vec<(String, String)>,
    /// Pairs `(a, b)`: where `a` appears, `b` must appear too.
    pub requires: Vec<(String, String)>,
    pub min: Option<usize>,
    pub max: Option<usize>,
    pub contract_name: String,
}

/// No text occurs twice.
pub open spec fn distinct_texts(s: Seq<Seq<char>>) -> bool {
    forall|i: int, j: int| 0 <= i < j < s.len() ==> s[i] != s[j]
}

/// `t` is a flag of the cell text `raw`: a non-empty piece between separators,
/// once trimmed.
pub open spec fn is_flag_of(raw: Seq<char>, sep: char, t: Seq<char>) -> bool {
    t.len() > 0 && exists|k: int|
        0 <= k < split_on(raw, sep).len() && trimmed(#[trigger] split_on(raw, sep)[k]) == t
}

/// The number of distinct texts in `s`.
pub open spec fn distinct_count(s: Seq<Seq<char>>) -> nat
    decreases s.len(),
{
    if s.len() == 0 {
        0
    } else if s.drop_last().contains(s.last()) {
        distinct_count(s.drop_last())
    } else {
        distinct_count(s.drop_last()) + 1
    }
}

/// The text pairs of a list of string pairs.
pub open spec fn pairs_view(v: Seq<(String, String)>) -> Seq<(Seq<char>, Seq<char>)> {
    v.map_values(|p: (String, String)| (p.0@, p.1@))
}

/// The first flag of `set`, from position `k` on, that is not allowed.
pub open spec fn first_unknown(set: Seq<Seq<char>>, allowed: Seq<Seq<char>>, k: int) -> Option<Seq<char>>
    decreases set.len() - k,
{
    if k < 0 || k >= set.len() {
        None
    } else if !allowed.contains(set[k]) {
        Some(set[k])
    } else {
        first_unknown(set, allowed, k + 1)
    }
}

/// The first exclusive pair, from position `k` on, whose two flags are both in `set`.
pub open spec fn first_clash(
    set: Seq<Seq<char>>,
    pairs: Seq<(Seq<char>, Seq<char>)>,
    k: int,
) -> Option<(Seq<char>, Seq<char>)>
    decreases pairs.len() - k,
{
    if k < 0 || k >= pairs.len() {
        None
    } else if set.contains(pairs[k].0) && set.contains(pairs[k].1) {
        Some(pairs[k])
    } else {
        first_clash(set, pairs, k + 1)
    }
}

/// The first implication, from position `k` on, whose premise is in `set` and
/// whose conclusion is not.
pub open spec fn first_unmet(
    set: Seq<Seq<char>>,
    pairs: Seq<(Seq<char>, Seq<char>)>,
    k: int,
) -> Option<(Seq<char>, Seq<char>)>
    decreases pairs.len() - k,
{
    if k < 0 || k >= pairs.len() {
        None
    } else if set.contains(pairs[k].0) && !set.contains(pairs[k].1) {
        Some(pairs[k])
    } else {
        first_unmet(set, pairs, k + 1)
    }
}

/// What checking the flag set `set` of cell (`row`, `col`) against `rules` gives:
/// unknown flags first, then exclusions, implications, and the bounds on the
/// number of distinct flags.
pub open spec fn flags_outcome(rules: FlagRules, row: usize, col: usize, set: Seq<Seq<char>>) -> Option<ErrorView> {
    let name = DetailView::Text(rules.contract_name@);
    let n = distinct_count(set);
    match first_unknown(set, texts(rules.allowed@), 0) {
        Some(f) => Some(ErrorView::Semantic {
            code: "T2_FLAG_UNKNOWN"@,
            row,
            column: col,
            message: "flag '"@ + f + "' is not allowed"@,
            details: seq![("flag"@, DetailView::Text(f)), ("allowed_contract"@, name)],
        }),
        None => match first_clash(set, pairs_view(rules.exclusive@), 0) {
            Some((a, b)) => Some(ErrorView::Semantic {
                code: "T2_FLAG_MUTUALLY_EXCLUSIVE"@,
                row,
                column: col,
                message: "flags '"@ + a + "' and '"@ + b + "' may not co-occur in the same row"@,
                details: seq![
                    ("a"@, DetailView::Text(a)),
                    ("b"@, DetailView::Text(b)),
                    ("allowed_contract"@, name),
                ],
            }),
            None => match first_unmet(set, pairs_view(rules.requires@), 0) {
                Some((a, b)) => Some(ErrorView::Semantic {
                    code: "T2_FLAG_MISSING_IMPLICATION"@,
                    row,
                    column: col,
                    message: "flag '"@ + a + "' requires '"@ + b + "'"@,
                    details: seq![
                        ("if"@, DetailView::Text(a)),
                        ("then"@, DetailView::Text(b)),
                        ("allowed_contract"@, name),
                    ],
                }),
                None => if rules.min is Some && n < rules.min->0 {
                    Some(ErrorView::Semantic {
                        code: "T2_FLAG_CARDINALITY_MIN"@,
                        row,
                        column: col,
                        message: decimal_text(n) + " flags < min "@ + decimal_text(rules.min->0 as nat),
                        details: seq![
                            ("count"@, DetailView::Number(n as u64)),
                            ("min"@, DetailView::Number(rules.min->0 as u64)),
                            ("allowed_contract"@, name),
                        ],
                    })
                } else if rules.max is Some && n > rules.max->0 {
                    Some(ErrorView::Semantic {
                        code: "T2_FLAG_CARDINALITY_MAX"@,
                        row,
                        column: col,
                        message: decimal_text(n) + " flags > max "@ + decimal_text(rules.max->0 as nat),
                        details: seq![
                            ("count"@, DetailView::Number(n as u64)),
                            ("max"@, DetailView::Number(rules.max->0 as u64)),
                            ("allowed_contract"@, name),
                        ],
                    })
                } else {
                    None
                },
            },
        },
    }
}

proof fn lemma_distinct_count_bound(s: Seq<Seq<char>>)
    ensures
        distinct_count(s) <= s.len(),
    decreases s.len(),
{
    if s.len() > 0 {
        lemma_distinct_count_bound(s.drop_last());
    }
}

impl FlagRules {
    /// Splits a raw cell on `separator` and returns its flags: the trimmed,
    /// non-empty pieces, each once.
    pub fn parse_flags(raw: &str, separator: char) -> (flags: Vec<String>)
        ensures
            distinct_texts(texts(flags@)),
            forall|t: Seq<char>| #[trigger] texts(flags@).contains(t) <==> is_flag_of(raw@, separator, t),
    {
        let pieces = split_text(raw, separator);
        let ghost toks = split_on(raw@, separator);
        let mut out: Vec<String> = Vec::new();
        let mut k: usize = 0;
        while k < pieces.len()
            invariant
                toks == split_on(raw@, separator),
                pieces@.len() == toks.len(),
                forall|j: int| 0 <= j < pieces@.len() ==> #[trigger] pieces@[j]@ == toks[j],
                k <= pieces.len(),
                distinct_texts(texts(out@)),
                forall|t: Seq<char>| #[trigger] texts(out@).contains(t) <==> (t.len() > 0 && exists|j: int|
                    0 <= j < k && trimmed(#[trigger] toks[j]) == t),
            decreases pieces.len() - k,
        {
            let t = trim(pieces[k]);
            assert(t@ == trimmed(toks[k as int]));
            let ghost before = texts(out@);
            let present = text_in(&out, t);
            if !t.is_empty() && !present {
                out.push(String::from_str(t));
                assert(texts(out@) =~= before.push(t@));
                assert(texts(out@)[before.len() as int] == t@);
            }
            assert forall|u: Seq<char>| before.contains(u) implies #[trigger] texts(out@).contains(u) by {
                let i = choose|i: int| 0 <= i < before.len() && before[i] == u;
                assert(texts(out@)[i] == u);
            }
            assert(t@.len() > 0 ==> texts(out@).contains(t@));
            assert forall|u: Seq<char>| #[trigger] texts(out@).contains(u) implies (u.len() > 0 && exists|j: int|
                0 <= j < k + 1 && trimmed(#[trigger] toks[j]) == u) by {
                if before.contains(u) {
                    let j = choose|j: int| 0 <= j < k && trimmed(#[trigger] toks[j]) == u;
                    assert(0 <= j < k + 1 && trimmed(toks[j]) == u);
                } else {
                    assert(u == t@);
                    assert(trimmed(toks[k as int]) == u);
                }
            }
            assert forall|u: Seq<char>| (u.len() > 0 && exists|j: int|
                0 <= j < k + 1 && trimmed(#[trigger] toks[j]) == u) implies #[trigger] texts(out@).contains(u) by {
                let j = choose|j: int| 0 <= j < k + 1 && trimmed(#[trigger] toks[j]) == u;
                if j < k {
                    assert(before.contains(u));
                } else {
                    assert(u == t@);
                }
            }
            k = k + 1;
        }
        assert forall|t: Seq<char>| #[trigger] texts(out@).contains(t) <==> is_flag_of(raw@, separator, t) by {
            if is_flag_of(raw@, separator, t) {
                let j = choose|j: int| 0 <= j < toks.len() && trimmed(#[trigger] toks[j]) == t;
            }
        }
        out
    }

    /// Checks a cell's flag set against this contract.
    ///
    /// The first flag of `set` that is not allowed is reported first; then the
    /// first exclusive pair whose flags both appear; then the first implication
    /// whose premise appears without its conclusion; then the number of
    /// distinct flags against `min` and `max`.
    pub fn validate(&self, row: usize, col: usize, set: &Vec<String>) -> (r: Result<(), ValidationError>)
        ensures
            outcome_is(r, flags_outcome(*self, row, col, texts(set@))),
    {
        let ghost sv = texts(set@);
        let ghost av = texts(self.allowed@);
        let mut i: usize = 0;
        while i < set.len()
            invariant
                sv == texts(set@),
                av == texts(self.allowed@),
                i <= set.len(),
                first_unknown(sv, av, 0) == first_unknown(sv, av, i as int),
            decreases set.len() - i,
        {
            assert(sv[i as int] == set@[i as int]@);
            if !text_in(&self.allowed, set[i].as_str()) {
                let mut m = String::from_str("flag '");
                m.append(set[i].as_str());
                m.append("' is not allowed");
                let d = details2(
                    "flag",
                    DetailValue::Text(set[i].clone()),
                    "allowed_contract",
                    DetailValue::Text(self.contract_name.clone()),
                );
                return Err(semantic_error("T2_FLAG_UNKNOWN", row, col, m, d));
            }
            i = i + 1;
        }
        let ghost ev = pairs_view(self.exclusive@);
        let mut k: usize = 0;
        while k < self.exclusive.len()
            invariant
                sv == texts(set@),
                av == texts(self.allowed@),
                ev == pairs_view(self.exclusive@),
                first_unknown(sv, av, 0) is None,
                k <= self.exclusive.len(),
                first_clash(sv, ev, 0) == first_clash(sv, ev, k as int),
            decreases self.exclusive.len() - k,
        {
            let a = &self.exclusive[k].0;
            let b = &self.exclusive[k].1;
            assert(ev[k as int] == (a@, b@));
            if text_in(set, a.as_str()) && text_in(set, b.as_str()) {
                let mut m = String::from_str("flags '");
                m.append(a.as_str());
                m.append("' and '");
                m.append(b.as_str());
                m.append("' may not co-occur in the same row");
                let d = details3(
                    "a",
                    DetailValue::Text(a.clone()),
                    "b",
                    DetailValue::Text(b.clone()),
                    "allowed_contract",
                    DetailValue::Text(self.contract_name.clone()),
                );
                return Err(semantic_error("T2_FLAG_MUTUALLY_EXCLUSIVE", row, col, m, d));
            }
            k = k + 1;
        }
        let ghost qv = pairs_view(self.requires@);
        let mut k: usize = 0;
        while k < self.requires.len()
            invariant
                sv == texts(set@),
                av == texts(self.allowed@),
                ev == pairs_view(self.exclusive@),
                qv == pairs_view(self.requires@),
                first_unknown(sv, av, 0) is None,
                first_clash(sv, ev, 0) is None,
                k <= self.requires.len(),
                first_unmet(sv, qv, 0) == first_unmet(sv, qv, k as int),
            decreases self.requires.len() - k,
        {
            let a = &self.requires[k].0;
            let b = &self.requires[k].1;
            assert(qv[k as int] == (a@, b@));
            if text_in(set, a.as_str()) && !text_in(set, b.as_str()) {
                let mut m = String::from_str("flag '");
                m.append(a.as_str());
                m.append("' requires '");
                m.append(b.as_str());
                m.append("'");
                let d = details3(
                    "if",
                    DetailValue::Text(a.clone()),
                    "then",
                    DetailValue::Text(b.clone()),
                    "allowed_contract",
                    DetailValue::Text(self.contract_name.clone()),
                );
                return Err(semantic_error("T2_FLAG_MISSING_IMPLICATION", row, col, m, d));
            }
            k = k + 1;
        }
        let n = count_distinct(set);
        if let Some(min) = self.min {
            if n < min {
                let mut m = decimal(n as u64);
                m.append(" flags < min ");
                m.append(decimal(min as u64).as_str());
                let d = details3(
                    "count",
                    DetailValue::Number(n as u64),
                    "min",
                    DetailValue::Number(min as u64),
                    "allowed_contract",
                    DetailValue::Text(self.contract_name.clone()),
                );
                return Err(semantic_error("T2_FLAG_CARDINALITY_MIN", row, col, m, d));
            }
        }
        if let Some(max) = self.max {
            if n > max {
                let mut m = decimal(n as u64);
                m.append(" flags > max ");
                m.append(decimal(max as u64).as_str());
                let d = details3(
                    "count",
                    DetailValue::Number(n as u64),
                    "max",
                    DetailValue::Number(max as u64),
                    "allowed_contract",
                    DetailValue::Text(self.contract_name.clone()),
                );
                return Err(semantic_error("T2_FLAG_CARDINALITY_MAX", row, col, m, d));
            }
        }
        Ok(())
    }
}

/// Whether the string at position `i` of `set` already occurs before it.
fn occurs_before(set: &Vec<String>, i: usize) -> (b: bool)
    requires
        i < set.len(),
    ensures
        b == texts(set@).take(i as int).contains(texts(set@)[i as int]),
{
    let ghost sv = texts(set@);
    let mut j: usize = 0;
    while j < i
        invariant
            sv == texts(set@),
            i < set.len(),
            j <= i,
            forall|q: int| 0 <= q < j ==> sv[q] != sv[i as int],
        decreases i - j,
    {
        if crate::text::str_eq(set[j].as_str(), set[i].as_str()) {
            assert(sv.take(i as int)[j as int] == sv[i as int]);
            return true;
        }
        j = j + 1;
    }
    assert forall|q: int| 0 <= q < sv.take(i as int).len() implies sv.take(i as int)[q] != sv[i as int] by {
        assert(sv.take(i as int)[q] == sv[q]);
    }
    false
}

/// The number of distinct strings in `set`.
fn count_distinct(set: &Vec<String>) -> (n: usize)
    ensures
        n == distinct_count(texts(set@)),
{
    let ghost sv = texts(set@);
    let mut n: usize = 0;
    let mut i: usize = 0;
    assert(sv.take(0) =~= Seq::<Seq<char>>::empty());
    while i < set.len()
        invariant
            sv == texts(set@),
            i <= set.len(),
            n == distinct_count(sv.take(i as int)),
            n <= i,
        decreases set.len() - i,
    {
        assert(sv.take(i + 1).drop_last() =~= sv.take(i as int));
        assert(sv.take(i + 1).last() == sv[i as int]);
        if !occurs_before(set, i) {
            n = n + 1;
        }
        i = i + 1;
    }
    assert(sv.take(set.len() as int) =~= sv);
    n
}

proof fn lemma_first_unknown_none(set: Seq<Seq<char>>, allowed: Seq<Seq<char>>, k: int)
    requires
        0 <= k,
        first_unknown(set, allowed, k) is None,
    ensures
        forall|i: int| k <= i < set.len() ==> allowed.contains(#[trigger] set[i]),
    decreases set.len() - k,
{
    if k < set.len() {
        lemma_first_unknown_none(set, allowed, k + 1);
    }
}

proof fn lemma_first_clash_none(set: Seq<Seq<char>>, pairs: Seq<(Seq<char>, Seq<char>)>, k: int)
    requires
        0 <= k,
        first_clash(set, pairs, k) is None,
    ensures
        forall|i: int| k <= i < pairs.len() ==> !(set.contains((#[trigger] pairs[i]).0) && set.contains(pairs[i].1)),
    decreases pairs.len() - k,
{
    if k < pairs.len() {
        lemma_first_clash_none(set, pairs, k + 1);
    }
}

proof fn lemma_first_unmet_none(set: Seq<Seq<char>>, pairs: Seq<(Seq<char>, Seq<char>)>, k: int)
    requires
        0 <= k,
        first_unmet(set, pairs, k) is None,
    ensures
        forall|i: int| k <= i < pairs.len() ==> (set.contains((#[trigger] pairs[i]).0) ==> set.contains(pairs[i].1)),
    decreases pairs.len() - k,
{
    if k < pairs.len() {
        lemma_first_unmet_none(set, pairs, k + 1);
    }
}

/// A flag set passes its contract exactly when every flag is allowed, no
/// exclusive pair appears whole, every implication whose premise appears has
/// its conclusion, and the number of distinct flags lies within the bounds.
pub proof fn law_accepted_flag_sets_meet_every_rule(rules: FlagRules, row: usize, col: usize, set: Seq<Seq<char>>)
    ensures
        flags_outcome(rules, row, col, set) is None <==> {
            &&& forall|i: int| 0 <= i < set.len() ==> texts(rules.allowed@).contains(#[trigger] set[i])
            &&& forall|i: int| 0 <= i < pairs_view(rules.exclusive@).len() ==>
                !(set.contains((#[trigger] pairs_view(rules.exclusive@)[i]).0) && set.contains(pairs_view(rules.exclusive@)[i].1))
            &&& forall|i: int| 0 <= i < pairs_view(rules.requires@).len() ==>
                (set.contains((#[trigger] pairs_view(rules.requires@)[i]).0) ==> set.contains(pairs_view(rules.requires@)[i].1))
            &&& (rules.min matches Some(m) ==> distinct_count(set) >= m)
            &&& (rules.max matches Some(m) ==> distinct_count(set) <= m)
        },
{
    let av = texts(rules.allowed@);
    let ev = pairs_view(rules.exclusive@);
    let qv = pairs_view(rules.requires@);
    if first_unknown(set, av, 0) is None {
        lemma_first_unknown_none(set, av, 0);
    } else {
        lemma_first_unknown_some(set, av, 0);
    }
    if first_clash(set, ev, 0) is None {
        lemma_first_clash_none(set, ev, 0);
    } else {
        lemma_first_clash_some(set, ev, 0);
    }
    if first_unmet(set, qv, 0) is None {
        lemma_first_unmet_none(set, qv, 0);
    } else {
        lemma_first_unmet_some(set, qv, 0);
    }
}

proof fn lemma_first_unknown_some(set: Seq<Seq<char>>, allowed: Seq<Seq<char>>, k: int)
    requires
        0 <= k,
        first_unknown(set, allowed, k) is Some,
    ensures
        exists|i: int| k <= i < set.len() && !allowed.contains(#[trigger] set[i]),
    decreases set.len() - k,
{
    if k < set.len() && allowed.contains(set[k]) {
        lemma_first_unknown_some(set, allowed, k + 1);
    }
}

proof fn lemma_first_clash_some(set: Seq<Seq<char>>, pairs: Seq<(Seq<char>, Seq<char>)>, k: int)
    requires
        0 <= k,
        first_clash(set, pairs, k) is Some,
    ensures
        exists|i: int| k <= i < pairs.len() && set.contains((#[trigger] pairs[i]).0) && set.contains(pairs[i].1),
    decreases pairs.len() - k,
{
    if k < pairs.len() && !(set.contains(pairs[k].0) && set.contains(pairs[k].1)) {
        lemma_first_clash_some(set, pairs, k + 1);
    }
}

proof fn lemma_first_unmet_some(set: Seq<Seq<char>>, pairs: Seq<(Seq<char>, Seq<char>)>, k: int)
    requires
        0 <= k,
        first_unmet(set, pairs, k) is Some,
    ensures
        exists|i: int| k <= i < pairs.len() && set.contains((#[trigger] pairs[i]).0) && !set.contains(pairs[i].1),
    decreases pairs.len() - k,
{
    if k < pairs.len() && !(set.contains(pairs[k].0) && !set.contains(pairs[k].1)) {
        lemma_first_unmet_some(set, pairs, k + 1);
    }
}

} // verus!
