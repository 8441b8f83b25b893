//! Expanding a recurrence rule into the instants at which an event recurs.

use vstd::prelude::*;
use vstd::string::*;
use crate::error::GatewayError;

verus! {

/// The first instant of the year 1, in seconds since the epoch.
pub const FIRST_INSTANT: i64 = -62_135_596_800;

/// The last instant of the year 9999, in seconds since the epoch.
pub const LAST_INSTANT: i64 = 253_402_300_799;

/// Whether an instant lies in the years 1 to 9999, the years in which rules
/// are expanded.
pub open spec fn expandable(instant: i64) -> bool {
    FIRST_INSTANT <= instant <= LAST_INSTANT
}

/// All the instants, in seconds since the epoch, that the `rrule` crate
/// generates for a rule anchored at `anchor` when asked for those from
/// `from` to `until`, both included. Nothing where the rule cannot be parsed
/// or is not valid for the anchor.
pub uninterp spec fn rule_occurrences(anchor: i64, rule: Seq<char>, from: i64, until: i64) -> Option<
    Seq<i64>,
>;

/// `rrule::RRule::build` on the parsed rule, then
/// `rrule::RRuleSet::all_unchecked` with the limits `after(from)` and
/// `before(until)`, all in UTC; each instant is handed out as seconds since
/// the epoch. The list is whole: no limit on its length or on the crate's
/// search cuts it short. The crate walks the rule from the anchor and stops
/// at the first instant past `until`, or where the rule runs out of the
/// years it knows, so the call returns, if late for a dense rule anchored
/// long before the range. The three instants must lie in the years 1 to
/// 9999: at the edge of the calendar's range the crate's year arithmetic
/// leaves the range and panics.
#[verifier::external_body]
pub(crate) fn occurrences(anchor: i64, rule: &str, from: i64, until: i64) -> (r: Option<Vec<i64>>)
    requires
        expandable(anchor),
        expandable(from),
        expandable(until),
    ensures
        match rule_occurrences(anchor, rule@, from, until) {
            Some(s) => r matches Some(v) && v@ == s,
            None => r is None,
        },
{
    let zone: rrule::Tz = chrono::Utc.into();
    let anchor = chrono::DateTime::from_timestamp(anchor, 0)?.with_timezone(&zone);
    let from = chrono::DateTime::from_timestamp(from, 0)?.with_timezone(&zone);
    let until = chrono::DateTime::from_timestamp(until, 0)?.with_timezone(&zone);
    let set = rule.parse::<rrule::RRule<rrule::Unvalidated>>().ok()?.build(anchor).ok()?;
    Some(set.after(from).before(until).all_unchecked().iter().map(|d| d.timestamp()).collect())
}

/// Tells whether an instant lies in the years 1 to 9999.
pub fn in_years(instant: i64) -> (r: bool)
    ensures
        r == expandable(instant),
{
    FIRST_INSTANT <= instant && instant <= LAST_INSTANT
}

/// Whether a sequence of instants is strictly ascending, and so free of
/// duplicates.
pub open spec fn ascending(s: Seq<i64>) -> bool {
    forall|i: int, j: int| 0 <= i < j < s.len() ==> s[i] < s[j]
}

/// Whether `out` is the selection from `raw` of the range from `start` to
/// `end`, both included: strictly ascending, and holding exactly the
/// instants of `raw` that lie in the range.
pub open spec fn selection(raw: Seq<i64>, start: i64, end: i64, out: Seq<i64>) -> bool {
    &&& ascending(out)
    &&& forall|x: i64| out.contains(x) <==> (raw.contains(x) && start <= x <= end)
}

/// Puts an instant into an ascending sequence, unless it is there already.
fn insert_ascending(out: &mut Vec<i64>, x: i64)
    requires
        ascending(old(out)@),
    ensures
        ascending(final(out)@),
        forall|y: i64| final(out)@.contains(y) <==> (old(out)@.contains(y) || y == x),
{
    let ghost before = out@;
    let mut p: usize = out.len();
    while p > 0 && out[p - 1] > x
        invariant
            p <= out@.len(),
            out@ == before,
            forall|k: int| p <= k < out@.len() ==> out@[k] > x,
        decreases p,
    {
        p -= 1;
    }
    if p > 0 && out[p - 1] == x {
        assert(before.contains(x));
        return ;
    }
    out.insert(p, x);
    proof {
        let after = out@;
        assert(after == before.insert(p as int, x));
        assert forall|i: int, j: int| 0 <= i < j < after.len() implies after[i] < after[j] by {
            if p > 0 {
                assert(before[p - 1] < x);
            }
            if i < p && j > p {
                assert(after[i] == before[i]);
                assert(after[j] == before[j - 1]);
            }
        }
        assert forall|y: i64| after.contains(y) <==> (before.contains(y) || y == x) by {
            if after.contains(y) {
                let k = choose|k: int| 0 <= k < after.len() && after[k] == y;
                if k < p {
                    assert(before[k] == y);
                } else if k > p {
                    assert(before[k - 1] == y);
                }
            }
            if before.contains(y) {
                let k = choose|k: int| 0 <= k < before.len() && before[k] == y;
                if k < p {
                    assert(after[k] == y);
                } else {
                    assert(after[k + 1] == y);
                }
            }
            if y == x {
                assert(after[p as int] == x);
            }
        }
    }
}

/// Selects from generated instants those between `start` and `end`, both
/// included, in ascending order and without duplicates, whatever order the
/// instants come in.
pub fn select_in_range(raw: &Vec<i64>, start: i64, end: i64) -> (out: Vec<i64>)
    ensures
        selection(raw@, start, end, out@),
{
    let mut out: Vec<i64> = Vec::new();
    let mut i: usize = 0;
    while i < raw.len()
        invariant
            i <= raw@.len(),
            ascending(out@),
            forall|x: i64| out@.contains(x) <==> (raw@.take(i as int).contains(x) && start <= x <= end),
        decreases raw@.len() - i,
    {
        let x = raw[i];
        let ghost seen = raw@.take(i as int);
        let ghost kept = out@;
        if start <= x && x <= end {
            insert_ascending(&mut out, x);
        }
        proof {
            let next = raw@.take(i + 1);
            assert(next =~= seen.push(x));
            assert forall|y: i64| next.contains(y) <==> (seen.contains(y) || y == x) by {
                if next.contains(y) {
                    let k = choose|k: int| 0 <= k < next.len() && next[k] == y;
                    if k < i {
                        assert(seen[k] == y);
                    }
                }
                if seen.contains(y) {
                    let k = choose|k: int| 0 <= k < seen.len() && seen[k] == y;
                    assert(next[k] == y);
                }
                if y == x {
                    assert(next[i as int] == x);
                }
            }
        }
        i += 1;
    }
    assert(raw@.take(raw@.len() as int) =~= raw@);
    out
}

/// Expands a recurrence rule anchored at `dtstart` into its instants
/// between `start` and `end`, both included, strictly ascending and so free
/// of duplicates: every instant of the rule in the range, and nothing else.
/// A rule without COUNT or UNTIL is followed up to `end`. Fails with a rule
/// error where the rule cannot be understood, and where the anchor or an
/// end of the range lies outside the years 1 to 9999.
pub fn expand_rrule(dtstart: i64, rrule_str: &str, start: i64, end: i64) -> (r: Result<
    Vec<i64>,
    GatewayError,
>)
    ensures
        if expandable(dtstart) && expandable(start) && expandable(end) {
            match rule_occurrences(dtstart, rrule_str@, start, end) {
                Some(raw) => r matches Ok(v) && selection(raw, start, end, v@),
                None => r == Err::<Vec<i64>, GatewayError>(GatewayError::Rule),
            }
        } else {
            r == Err::<Vec<i64>, GatewayError>(GatewayError::Rule)
        },
        r matches Ok(v) ==> ascending(v@) && forall|i: int|
            0 <= i < v@.len() ==> start <= #[trigger] v@[i] <= end,
{
    if !(in_years(dtstart) && in_years(start) && in_years(end)) {
        return Err(GatewayError::Rule);
    }
    match occurrences(dtstart, rrule_str, start, end) {
        Some(raw) => {
            let out = select_in_range(&raw, start, end);
            assert forall|i: int| 0 <= i < out@.len() implies start <= #[trigger] out@[i] <= end by {
                assert(out@.contains(out@[i]));
            }
            Ok(out)
        },
        None => Err(GatewayError::Rule),
    }
}

/// The selection of a range is unique: two strictly ascending sequences that
/// hold the same instants are the same sequence.
pub proof fn law_selection_unique(raw: Seq<i64>, start: i64, end: i64, a: Seq<i64>, b: Seq<i64>)
    requires
        selection(raw, start, end, a),
        selection(raw, start, end, b),
    ensures
        a == b,
    decreases a.len(),
{
    if a.len() == 0 {
        if b.len() > 0 {
            assert(b.contains(b[0]));
            assert(a.contains(b[0]));
        }
        assert(a =~= b);
    } else {
        let m = a.last();
        assert(a.contains(m));
        assert(b.contains(m));
        let k = choose|k: int| 0 <= k < b.len() && b[k] == m;
        if k < b.len() - 1 {
            let y = b[b.len() - 1];
            assert(b.contains(y));
            assert(a.contains(y));
            let j = choose|j: int| 0 <= j < a.len() && a[j] == y;
            assert(a[j] <= m);
        }
        let a1 = a.drop_last();
        let b1 = b.drop_last();
        let raw1 = a1;
        assert forall|x: i64| a1.contains(x) <==> (raw1.contains(x) && i64::MIN <= x <= i64::MAX) by {}
        assert forall|x: i64| b1.contains(x) <==> (raw1.contains(x) && i64::MIN <= x <= i64::MAX) by {
            if b1.contains(x) {
                let j = choose|j: int| 0 <= j < b1.len() && b1[j] == x;
                assert(b[j] == x);
                assert(b.contains(x));
                assert(a.contains(x));
                let i = choose|i: int| 0 <= i < a.len() && a[i] == x;
                assert(x < m);
                assert(a1[i] == x);
            }
            if a1.contains(x) {
                let i = choose|i: int| 0 <= i < a1.len() && a1[i] == x;
                assert(a[i] == x);
                assert(a.contains(x));
                assert(b.contains(x));
                let j = choose|j: int| 0 <= j < b.len() && b[j] == x;
                assert(x < m);
                assert(b1[j] == x);
            }
        }
        law_selection_unique(raw1, i64::MIN, i64::MAX, a1, b1);
        assert(a =~= a1.push(m));
        assert(b =~= b1.push(m));
    }
}

} // verus!
