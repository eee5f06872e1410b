//! Splitting of bulk-input lines. Bulk input is newline-delimited
//! `series=value` pairs; this module classifies one line and splits it into
//! the series name (everything before the first `=`) and the value text
//! (everything after the run of `=` signs that starts there). Parsing the
//! value text as a number is left to the caller; the shell reports and
//! skips malformed lines and failed number parses alike, one consistent
//! per-line policy, and never aborts the rest of the batch.

use vstd::prelude::*;

verus! {

/// One classified bulk line: blank (to be skipped silently), without any
/// `=` (to be reported and skipped), or split into its two halves.
#[derive(Debug)]
pub enum BulkLine {
    Empty,
    Malformed,
    Pair { series: String, value_text: String },
}

/// `i` is the position of the first `=` in `s`.
pub open spec fn first_eq_at(s: Seq<char>, i: int) -> bool {
    &&& 0 <= i < s.len()
    &&& s[i] == '='
    &&& forall|j: int| 0 <= j < i ==> s[j] != '='
}

/// The run of `=` signs starting at the first `=` of `s` ends at `k`: the
/// split yields `s[..i]` as the series name and `s[k..]` as the value text.
pub open spec fn eq_run(s: Seq<char>, i: int, k: int) -> bool {
    &&& first_eq_at(s, i)
    &&& i <= k <= s.len()
    &&& forall|j: int| i <= j < k ==> s[j] == '='
    &&& k == s.len() || s[k] != '='
}

/// Classifies one bulk line: `Empty` exactly for a blank line, `Malformed`
/// exactly for a non-blank line without `=`, and otherwise the split at the
/// first `=`, with the whole run of `=` signs there consumed (so
/// `a==1.5` names series `a` with value text `1.5`).
pub fn parse_bulk_line(line: &str) -> (r: BulkLine)
    ensures
        match r {
            BulkLine::Empty => line@.len() == 0,
            BulkLine::Malformed => line@.len() > 0 && forall|j: int|
                0 <= j < line@.len() ==> line@[j] != '=',
            BulkLine::Pair { series, value_text } => exists|i: int, k: int|
                {
                    &&& #[trigger] eq_run(line@, i, k)
                    &&& series@ == line@.take(i)
                    &&& value_text@ == line@.skip(k)
                },
        },
{
    let n = line.unicode_len();
    if n == 0 {
        return BulkLine::Empty;
    }
    let mut i: usize = 0;
    while i < n && line.get_char(i) != '='
        invariant
            n == line@.len(),
            i <= n,
            forall|j: int| 0 <= j < i ==> line@[j] != '=',
        decreases n - i,
    {
        i += 1;
    }
    if i == n {
        return BulkLine::Malformed;
    }
    let mut k: usize = i;
    while k < n && line.get_char(k) == '='
        invariant
            n == line@.len(),
            i <= k <= n,
            forall|j: int| i <= j < k ==> line@[j] == '=',
        decreases n - k,
    {
        k += 1;
    }
    let series = line.substring_char(0, i).to_owned();
    let value_text = line.substring_char(k, n).to_owned();
    proof {
        assert(eq_run(line@, i as int, k as int));
        assert(series@ =~= line@.take(i as int));
        assert(value_text@ =~= line@.skip(k as int));
    }
    BulkLine::Pair { series, value_text }
}

} // verus!
