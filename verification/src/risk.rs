//! Descriptions of risk coordinates: how a raw value is typed, which
//! normalizer maps it to `[0, 1]`, and how the normalized values may evolve,
//! and the identifiers of the kernel normalizations.
use vstd::prelude::*;

verus! {

/// The type of a raw risk value.
#[derive(Debug, Clone, Copy, PartialEq, Eq, Structural)]
pub enum RiskRawType {
    U64,
    F64,
    Percent01,
    Percent100,
    /// An ordinal with this many categories.
    Ordinal(u8),
}

/// The normalizer that maps a raw risk value to `[0, 1]`.
#[derive(Debug, Clone, Copy, PartialEq, Eq, Structural)]
pub enum RiskNormalizerKind {
    Linear,
    LogClamp,
    LogitClamp,
    ZScoreCdf,
    OrdinalLadder,
    /// For values that are already normalized.
    Identity,
}

/// How successive normalized values of a coordinate may evolve.
#[derive(Debug, Clone, Copy, PartialEq, Eq, Structural)]
pub enum RiskMonotonicity {
    Unordered,
    NonDecreasing,
    StrictIncreasing,
}

/// The normalization a kernel risk scalar uses.
#[derive(Debug, Clone, Copy)]
pub enum NormalizationKind {
    Linear01Clamp,
    Logit01Clamp,
    Custom(&'static str),
}

/// The identifier of a normalization.
pub open spec fn normalization_id(kind: NormalizationKind) -> Seq<char> {
    match kind {
        NormalizationKind::Linear01Clamp => "norm-linear-01-clamp"@,
        NormalizationKind::Logit01Clamp => "norm-logit-01-clamp"@,
        NormalizationKind::Custom(s) => s@,
    }
}

/// The identifier of a normalization: a fixed one for the built-in kinds,
/// the given one for a custom kind.
pub fn normalization_id_str(kind: NormalizationKind) -> (s: &'static str)
    ensures
        s@ == normalization_id(kind),
{
    match kind {
        NormalizationKind::Linear01Clamp => "norm-linear-01-clamp",
        NormalizationKind::Logit01Clamp => "norm-logit-01-clamp",
        NormalizationKind::Custom(s) => s,
    }
}

} // verus!
