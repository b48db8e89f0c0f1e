//! Two-tree comparison: the four fixed metric rows with signed deltas,
//! and the sign-aware rendering of a delta.

use vstd::prelude::*;
use vstd::string::StringExecFns;
use crate::format::dec_digits;
use crate::stats::AnalysisResult;

verus! {

/// One metric of the comparison: the two grand totals and their signed
/// difference, second tree minus first.
pub struct ComparisonRow {
    pub metric: String,
    pub value_a: u64,
    pub value_b: u64,
    pub delta: i64,
}

/// Signed decimal rendering: positive deltas carry an explicit plus
/// sign, negative ones the usual minus, zero is plain `0`.
pub open spec fn delta_chars(d: int) -> Seq<char> {
    if d > 0 {
        "+"@ + dec_digits(d as nat)
    } else if d < 0 {
        "-"@ + dec_digits((-d) as nat)
    } else {
        dec_digits(0)
    }
}

/// Renders a signed delta per [`delta_chars`].
pub fn format_delta(d: i64) -> (r: String)
    requires
        d > i64::MIN,
    ensures
        r@ == delta_chars(d as int),
{
    if d > 0 {
        let mut s = String::from_str("+");
        let digits = crate::format::u64_to_string(d as u64);
        s.append(digits.as_str());
        s
    } else if d < 0 {
        let mut s = String::from_str("-");
        let digits = crate::format::u64_to_string((-d) as u64);
        s.append(digits.as_str());
        s
    } else {
        crate::format::u64_to_string(0)
    }
}

/// All grand totals of a result fit the signed 64-bit delta range.
pub open spec fn totals_in_delta_range(r: AnalysisResult) -> bool {
    &&& r.total_files <= i64::MAX
    &&& r.total_code <= i64::MAX
    &&& r.total_comments <= i64::MAX
    &&& r.total_blanks <= i64::MAX
}

/// Compares the grand totals of two analysis results: exactly four rows
/// in fixed order — total files, lines of code, comments, blank lines —
/// each with `delta == b - a` as a signed value.
pub fn compare(a: &AnalysisResult, b: &AnalysisResult) -> (r: Vec<ComparisonRow>)
    requires
        totals_in_delta_range(*a),
        totals_in_delta_range(*b),
    ensures
        r@.len() == 4,
        r@[0].metric@ == "Total Files"@,
        r@[0].value_a == a.total_files && r@[0].value_b == b.total_files,
        r@[0].delta == b.total_files - a.total_files,
        r@[1].metric@ == "Lines of Code"@,
        r@[1].value_a == a.total_code && r@[1].value_b == b.total_code,
        r@[1].delta == b.total_code - a.total_code,
        r@[2].metric@ == "Comments"@,
        r@[2].value_a == a.total_comments && r@[2].value_b == b.total_comments,
        r@[2].delta == b.total_comments - a.total_comments,
        r@[3].metric@ == "Blank Lines"@,
        r@[3].value_a == a.total_blanks && r@[3].value_b == b.total_blanks,
        r@[3].delta == b.total_blanks - a.total_blanks,
{
    let mut rows: Vec<ComparisonRow> = Vec::new();
    rows.push(
        ComparisonRow {
            metric: String::from_str("Total Files"),
            value_a: a.total_files,
            value_b: b.total_files,
            delta: (b.total_files as i64) - (a.total_files as i64),
        },
    );
    rows.push(
        ComparisonRow {
            metric: String::from_str("Lines of Code"),
            value_a: a.total_code,
            value_b: b.total_code,
            delta: (b.total_code as i64) - (a.total_code as i64),
        },
    );
    rows.push(
        ComparisonRow {
            metric: String::from_str("Comments"),
            value_a: a.total_comments,
            value_b: b.total_comments,
            delta: (b.total_comments as i64) - (a.total_comments as i64),
        },
    );
    rows.push(
        ComparisonRow {
            metric: String::from_str("Blank Lines"),
            value_a: a.total_blanks,
            value_b: b.total_blanks,
            delta: (b.total_blanks as i64) - (a.total_blanks as i64),
        },
    );
    rows
}

} // verus!
