//! Column-level time stamp contracts: a time stamp must parse, lie in a range,
//! and respect the column's ordering.
use vstd::prelude::*;

use crate::error::{details3, outcome_is, semantic_error, DetailValue, DetailView, Details, ErrorView, ValidationError};
use crate::text::{decimal, decimal_text, parse_u64, trim, trimmed, u64_of_text};

verus! {

/// The unit of a time stamp column.
#[derive(Debug, Clone, Copy, PartialEq, Eq, Structural)]
pub enum TimeUnit {
    Seconds,
    Milliseconds,
    Nanoseconds,
}

/// The ordering a time stamp column must respect.
#[derive(Debug, Clone, Copy, PartialEq, Eq, Structural)]
pub enum TimeMonotonicity {
    Unordered,
    NonDecreasing,
    StrictIncreasing,
    PerGroup,
}

/// The name of an ordering in reports.
pub open spec fn monotonicity_name(m: TimeMonotonicity) -> Seq<char> {
    match m {
        TimeMonotonicity::Unordered => "none"@,
        TimeMonotonicity::NonDecreasing => "non_decreasing"@,
        TimeMonotonicity::StrictIncreasing => "strict_increasing"@,
        TimeMonotonicity::PerGroup => "per_group"@,
    }
}

fn monotonicity_str(m: TimeMonotonicity) -> (s: &'static str)
    ensures
        s@ == monotonicity_name(m),
{
    match m {
        TimeMonotonicity::Unordered => "none",
        TimeMonotonicity::NonDecreasing => "non_decreasing",
        TimeMonotonicity::StrictIncreasing => "strict_increasing",
        TimeMonotonicity::PerGroup => "per_group",
    }
}

/// Column-level time contract, reused as the rows of a file are checked; it
/// remembers the last accepted time stamp.
#[derive(Debug)]
pub struct TimeConstraint {
    pub unit: TimeUnit,
    pub min_epoch: u64,
    pub max_epoch: u64,
    pub monotonicity: TimeMonotonicity,
    prev: Option<u64>,
}

/// Whether `ts` may follow `prev` under ordering `m`.
pub open spec fn ordered_after(m: TimeMonotonicity, prev: Option<u64>, ts: u64) -> bool {
    match prev {
        None => true,
        Some(p) => match m {
            TimeMonotonicity::NonDecreasing => ts >= p,
            TimeMonotonicity::StrictIncreasing => ts > p,
            _ => true,
        },
    }
}

/// One validation step of a time constraint with the given bounds and ordering,
/// whose last accepted time stamp is `prev`, on the cell `raw` at (`row`, `col`):
/// the new last accepted time stamp, or the error.
pub open spec fn time_step(
    min_epoch: u64,
    max_epoch: u64,
    m: TimeMonotonicity,
    prev: Option<u64>,
    row: usize,
    col: usize,
    raw: Seq<char>,
) -> Result<Option<u64>, ErrorView> {
    let v = trimmed(raw);
    match u64_of_text(v) {
        None => Err(ErrorView::Semantic {
            code: "T2_TIME_PARSE"@,
            row,
            column: col,
            message: "timestamp '"@ + v + "' is not a valid u64"@,
            details: seq![("value"@, DetailView::Text(v))],
        }),
        Some(ts) => if ts < min_epoch || ts > max_epoch {
            Err(ErrorView::Semantic {
                code: "T2_TIME_RANGE_VIOLATION"@,
                row,
                column: col,
                message: "timestamp "@ + decimal_text(ts as nat) + " is outside allowed range ["@
                    + decimal_text(min_epoch as nat) + "..="@ + decimal_text(max_epoch as nat) + "]"@,
                details: seq![
                    ("value"@, DetailView::Number(ts)),
                    ("min_epoch"@, DetailView::Number(min_epoch)),
                    ("max_epoch"@, DetailView::Number(max_epoch)),
                ],
            })
        } else if !ordered_after(m, prev, ts) {
            Err(ErrorView::Semantic {
                code: "T2_TIME_MONOTONICITY_VIOLATION"@,
                row,
                column: col,
                message: "timestamp "@ + decimal_text(ts as nat) + " violates "@ + monotonicity_name(m)
                    + " ordering (previous "@ + decimal_text(prev->0 as nat) + ")"@,
                details: seq![
                    ("value"@, DetailView::Number(ts)),
                    ("previous"@, DetailView::Number(prev->0)),
                    ("monotonicity"@, DetailView::Text(monotonicity_name(m))),
                ],
            })
        } else {
            Ok(Some(ts))
        },
    }
}

/// The mathematical value of a [`TimeConstraint`]: its settings, which are
/// the values of its public fields `unit`, `min_epoch`, `max_epoch` and
/// `monotonicity`, and the last accepted time stamp, which it keeps private.
pub struct TimeConstraintView {
    pub unit: TimeUnit,
    pub min_epoch: u64,
    pub max_epoch: u64,
    pub monotonicity: TimeMonotonicity,
    pub prev: Option<u64>,
}

impl View for TimeConstraint {
    type V = TimeConstraintView;

    closed spec fn view(&self) -> TimeConstraintView {
        TimeConstraintView {
            unit: self.unit,
            min_epoch: self.min_epoch,
            max_epoch: self.max_epoch,
            monotonicity: self.monotonicity,
            prev: self.prev,
        }
    }
}

impl TimeConstraint {

    /// A constraint that has accepted no time stamp yet.
    pub fn new(unit: TimeUnit, min_epoch: u64, max_epoch: u64, monotonicity: TimeMonotonicity) -> (tc: Self)
        ensures
            tc@ == (TimeConstraintView { unit, min_epoch, max_epoch, monotonicity, prev: None }),
    {
        TimeConstraint { unit, min_epoch, max_epoch, monotonicity, prev: None }
    }

    /// Validates one time stamp cell (`row`, `col` are the cell's coordinates).
    ///
    /// The trimmed cell must parse as a `u64`, lie within
    /// `[min_epoch, max_epoch]`, and follow the last accepted time stamp as the
    /// ordering demands. An accepted time stamp becomes the last accepted one;
    /// a refused one leaves the constraint unchanged.
    pub fn validate(&mut self, row: usize, col: usize, raw: &str) -> (r: Result<(), ValidationError>)
        ensures
            match time_step(
                old(self)@.min_epoch,
                old(self)@.max_epoch,
                old(self)@.monotonicity,
                old(self)@.prev,
                row,
                col,
                raw@,
            ) {
                Ok(p) => r is Ok && final(self)@ == (TimeConstraintView { prev: p, ..old(self)@ }),
                Err(e) => outcome_is(r, Some(e)) && final(self)@ == old(self)@,
            },
    {
        let t = trim(raw);
        let ts = match parse_u64(t) {
            Some(x) => x,
            None => {
                let mut m = String::from_str("timestamp '");
                m.append(t);
                m.append("' is not a valid u64");
                let mut d: Details = Vec::new();
                d.push(("value", DetailValue::Text(String::from_str(t))));
                assert(crate::error::details_view(d@) =~= seq![("value"@, DetailView::Text(t@))]);
                return Err(semantic_error("T2_TIME_PARSE", row, col, m, d));
            },
        };
        if ts < self.min_epoch || ts > self.max_epoch {
            let mut m = String::from_str("timestamp ");
            m.append(decimal(ts).as_str());
            m.append(" is outside allowed range [");
            m.append(decimal(self.min_epoch).as_str());
            m.append("..=");
            m.append(decimal(self.max_epoch).as_str());
            m.append("]");
            let d = details3(
                "value",
                DetailValue::Number(ts),
                "min_epoch",
                DetailValue::Number(self.min_epoch),
                "max_epoch",
                DetailValue::Number(self.max_epoch),
            );
            return Err(semantic_error("T2_TIME_RANGE_VIOLATION", row, col, m, d));
        }
        match self.monotonicity {
            TimeMonotonicity::NonDecreasing | TimeMonotonicity::StrictIncreasing => {
                if let Some(prev) = self.prev {
                    let ok = match self.monotonicity {
                        TimeMonotonicity::NonDecreasing => ts >= prev,
                        TimeMonotonicity::StrictIncreasing => ts > prev,
                        _ => true,
                    };
                    if !ok {
                        let name = monotonicity_str(self.monotonicity);
                        let mut m = String::from_str("timestamp ");
                        m.append(decimal(ts).as_str());
                        m.append(" violates ");
                        m.append(name);
                        m.append(" ordering (previous ");
                        m.append(decimal(prev).as_str());
                        m.append(")");
                        let d = details3(
                            "value",
                            DetailValue::Number(ts),
                            "previous",
                            DetailValue::Number(prev),
                            "monotonicity",
                            DetailValue::Text(String::from_str(name)),
                        );
                        return Err(semantic_error("T2_TIME_MONOTONICITY_VIOLATION", row, col, m, d));
                    }
                }
                self.prev = Some(ts);
            },
            _ => {
                self.prev = Some(ts);
            },
        }
        Ok(())
    }
}

/// The time stamps accepted along a run of cells `(row, col, text)` by a
/// constraint with the given bounds and ordering whose last accepted time
/// stamp is `prev` at the start; refused cells leave the state as it is.
pub open spec fn accepted_run(
    min_epoch: u64,
    max_epoch: u64,
    m: TimeMonotonicity,
    prev: Option<u64>,
    cells: Seq<(usize, usize, Seq<char>)>,
) -> Seq<u64>
    decreases cells.len(),
{
    if cells.len() == 0 {
        Seq::empty()
    } else {
        match time_step(min_epoch, max_epoch, m, prev, cells[0].0, cells[0].1, cells[0].2) {
            Ok(p) => seq![p->0] + accepted_run(min_epoch, max_epoch, m, p, cells.drop_first()),
            Err(_) => accepted_run(min_epoch, max_epoch, m, prev, cells.drop_first()),
        }
    }
}

proof fn lemma_step_accepts(
    min_epoch: u64,
    max_epoch: u64,
    m: TimeMonotonicity,
    prev: Option<u64>,
    row: usize,
    col: usize,
    raw: Seq<char>,
)
    requires
        time_step(min_epoch, max_epoch, m, prev, row, col, raw) is Ok,
    ensures
        ({
            let p = time_step(min_epoch, max_epoch, m, prev, row, col, raw)->Ok_0;
            &&& p is Some
            &&& min_epoch <= p->0 <= max_epoch
            &&& ordered_after(m, prev, p->0)
            &&& forall|q: u64| ordered_after(m, p, q) && ordered_after(m, prev, p->0) ==> ordered_after(m, prev, q)
        }),
{
}

/// Every time stamp a constraint accepts lies within its bounds, and along any
/// run of cells the accepted time stamps follow the constraint's ordering: they
/// never decrease under `NonDecreasing`, strictly increase under
/// `StrictIncreasing`, and each may follow the time stamp accepted before the run.
pub proof fn law_accepted_time_stamps_follow_ordering(
    min_epoch: u64,
    max_epoch: u64,
    m: TimeMonotonicity,
    prev: Option<u64>,
    cells: Seq<(usize, usize, Seq<char>)>,
)
    ensures
        ({
            let run = accepted_run(min_epoch, max_epoch, m, prev, cells);
            &&& forall|i: int| 0 <= i < run.len() ==> min_epoch <= #[trigger] run[i] <= max_epoch
            &&& forall|i: int| 0 <= i < run.len() ==> ordered_after(m, prev, #[trigger] run[i])
            &&& forall|i: int, j: int| 0 <= i < j < run.len() ==> ordered_after(m, Some(#[trigger] run[i]), #[trigger] run[j])
        }),
    decreases cells.len(),
{
    if cells.len() > 0 {
        let rest = cells.drop_first();
        match time_step(min_epoch, max_epoch, m, prev, cells[0].0, cells[0].1, cells[0].2) {
            Ok(p) => {
                lemma_step_accepts(min_epoch, max_epoch, m, prev, cells[0].0, cells[0].1, cells[0].2);
                law_accepted_time_stamps_follow_ordering(min_epoch, max_epoch, m, p, rest);
                let tail = accepted_run(min_epoch, max_epoch, m, p, rest);
                let run = accepted_run(min_epoch, max_epoch, m, prev, cells);
                assert(run =~= seq![p->0] + tail);
                assert forall|i: int| 0 <= i < run.len() implies ordered_after(m, prev, #[trigger] run[i]) by {
                    if i > 0 {
                        assert(run[i] == tail[i - 1]);
                        assert(ordered_after(m, p, tail[i - 1]));
                    } else {
                        assert(run[0] == p->0);
                    }
                }
                assert forall|i: int, j: int| 0 <= i < j < run.len() implies ordered_after(m, Some(#[trigger] run[i]), #[trigger] run[j]) by {
                    assert(run[j] == tail[j - 1]);
                    if i > 0 {
                        assert(run[i] == tail[i - 1]);
                        assert(ordered_after(m, Some(tail[i - 1]), tail[j - 1]));
                    } else {
                        assert(run[0] == p->0);
                        assert(ordered_after(m, p, tail[j - 1]));
                    }
                }
                assert forall|i: int| 0 <= i < run.len() implies min_epoch <= #[trigger] run[i] <= max_epoch by {
                    if i > 0 {
                        assert(run[i] == tail[i - 1]);
                    } else {
                        assert(run[0] == p->0);
                    }
                }
            },
            Err(_) => {
                law_accepted_time_stamps_follow_ordering(min_epoch, max_epoch, m, prev, rest);
                assert(accepted_run(min_epoch, max_epoch, m, prev, cells)
                    == accepted_run(min_epoch, max_epoch, m, prev, rest));
            },
        }
    }
}

/// A time stamp cell is accepted exactly when its text, stripped of the white
/// space around it, is a decimal `u64` within `[min_epoch, max_epoch]` that
/// follows the last accepted time stamp as the ordering demands (at least it
/// under `NonDecreasing`, above it under `StrictIncreasing`); the accepted
/// time stamp is then that number.
pub proof fn law_trimmed_time_stamps_are_accepted(
    min_epoch: u64,
    max_epoch: u64,
    m: TimeMonotonicity,
    prev: Option<u64>,
    row: usize,
    col: usize,
    raw: Seq<char>,
)
    ensures
        time_step(min_epoch, max_epoch, m, prev, row, col, raw) is Ok <==> {
            &&& u64_of_text(trimmed(raw)) is Some
            &&& min_epoch <= u64_of_text(trimmed(raw))->0 <= max_epoch
            &&& (prev is Some && m is NonDecreasing ==> u64_of_text(trimmed(raw))->0 >= prev->0)
            &&& (prev is Some && m is StrictIncreasing ==> u64_of_text(trimmed(raw))->0 > prev->0)
        },
        time_step(min_epoch, max_epoch, m, prev, row, col, raw) is Ok ==>
            time_step(min_epoch, max_epoch, m, prev, row, col, raw) == Ok::<Option<u64>, ErrorView>(u64_of_text(trimmed(raw))),
{
}

} // verus!
