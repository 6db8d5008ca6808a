//! Cost status and basis, and the metadata rules a cost must meet before it is reported.
//! (Amounts are floating-point and are summed by the caller.)

use vstd::prelude::*;

use crate::text::chars_of;

verus! {

/// Whether a cost could be measured.
#[derive(Debug, Clone, Copy, PartialEq, Eq, Structural)]
pub enum CostStatus {
    Available,
    Unknown,
    Unavailable,
}

/// Where an amount comes from: a local estimate or the provider's actual figure.
#[derive(Debug, Clone, Copy, PartialEq, Eq, Structural)]
pub enum CostBasis {
    Estimated,
    Actual,
}

impl CostStatus {
    /// The label a status is written as.
    pub fn label(self) -> (res: &'static str)
        ensures
            res@ == match self {
                CostStatus::Available => "available"@,
                CostStatus::Unknown => "unknown"@,
                CostStatus::Unavailable => "unavailable"@,
            },
    {
        match self {
            CostStatus::Available => "available",
            CostStatus::Unknown => "unknown",
            CostStatus::Unavailable => "unavailable",
        }
    }
}

impl CostBasis {
    /// The label a basis is written as.
    pub fn label(self) -> (res: &'static str)
        ensures
            res@ == match self {
                CostBasis::Estimated => "estimated"@,
                CostBasis::Actual => "actual"@,
            },
    {
        match self {
            CostBasis::Estimated => "estimated",
            CostBasis::Actual => "actual",
        }
    }
}

/// A total is actual only when both of its parts are.
pub fn combined_basis(left: CostBasis, right: CostBasis) -> (res: CostBasis)
    ensures
        res == (if left == CostBasis::Actual && right == CostBasis::Actual {
            CostBasis::Actual
        } else {
            CostBasis::Estimated
        }),
{
    if left == CostBasis::Actual && right == CostBasis::Actual {
        CostBasis::Actual
    } else {
        CostBasis::Estimated
    }
}

/// Characters cost metadata (a model, a currency, a price version) may hold.
pub open spec fn is_metadata_char(c: char) -> bool {
    ('a' <= c && c <= 'z') || ('A' <= c && c <= 'Z') || ('0' <= c && c <= '9') || c == '_' || c == '-'
        || c == '/' || c == '.' || c == ':'
}

pub open spec fn spec_safe_cost_metadata(value: Seq<char>, max_chars: usize) -> bool {
    &&& value.len() > 0
    &&& value.len() <= max_chars
    &&& forall|i: int| 0 <= i < value.len() ==> is_metadata_char(#[trigger] value[i])
}

/// Cost metadata must be non-empty, at most `max_chars` characters, and made of ASCII
/// letters, digits and `_-/.:`.
pub fn safe_cost_metadata(value: &str, max_chars: usize) -> (res: bool)
    ensures
        res == spec_safe_cost_metadata(value@, max_chars),
{
    let c = chars_of(value);
    if c.len() == 0 || c.len() > max_chars {
        return false;
    }
    let mut i: usize = 0;
    while i < c.len()
        invariant
            i <= c.len(),
            c@ == value@,
            forall|k: int| 0 <= k < i ==> is_metadata_char(#[trigger] c@[k]),
        decreases c.len() - i,
    {
        let ch = c[i];
        if !(('a' <= ch && ch <= 'z') || ('A' <= ch && ch <= 'Z') || ('0' <= ch && ch <= '9') || ch == '_'
            || ch == '-' || ch == '/' || ch == '.' || ch == ':') {
            return false;
        }
        i = i + 1;
    }
    true
}

} // verus!
