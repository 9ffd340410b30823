//! The occurrence generator: expands a fully specified rule into the
//! ordered, finite sequence of concrete occurrence time-ranges it implies.

use crate::rule::{RecurrenceType, ResolvedRule};
use crate::time::{
    civil_key, days_before_year, iter_shift_civil, lemma_civil_index_at_least_year,
    lemma_day_index_in_range, lemma_days_before_year_bounds, lemma_days_before_year_mono,
    lemma_iter_shift_civil_props, lemma_key_le_month_index_le, lemma_shift_civil_props,
    lemma_shift_months_increases,
    month_index, shift_civil, spec_weekday_of_index, DateTime, Weekday,
};
use vstd::arithmetic::div_mod::lemma_div_is_ordered;
use vstd::prelude::*;

verus! {

/// One concrete occurrence: a start and end timestamp.
#[derive(Clone, Copy, Debug, PartialEq, Eq, Structural)]
pub struct TimeRange {
    pub start: DateTime,
    pub end: DateTime,
}

/// Start timestamps grow strictly along the sequence.
pub open spec fn occurrences_ordered(r: Seq<TimeRange>) -> bool {
    forall|i: int|
        0 <= i && i + 1 < r.len() ==> (#[trigger] r[i]).start.time_key() < r[i + 1].start.time_key()
}

/// The occurrences of a day-stepped rule: the `i`-th pair lies `i` steps
/// of `step_days` days after the base range, every emitted end lies at or
/// before `end_date`, and the next candidate past the sequence would not.
/// Day index, time-of-day fields and validity pin each timestamp
/// (`crate::time::lemma_time_key_injective`).
pub open spec fn fixed_step_occurrences_ok(
    r: Seq<TimeRange>,
    start: DateTime,
    end: DateTime,
    step_days: int,
    end_date: DateTime,
) -> bool {
    &&& forall|i: int|
        0 <= i < r.len() ==> {
            let o = #[trigger] r[i];
            &&& o.start.valid()
            &&& o.end.valid()
            &&& o.start.day_index() == start.day_index() + i * step_days
            &&& o.end.day_index() == end.day_index() + i * step_days
            &&& o.start.hour == start.hour
            &&& o.start.minute == start.minute
            &&& o.start.second == start.second
            &&& o.end.hour == end.hour
            &&& o.end.minute == end.minute
            &&& o.end.second == end.second
            &&& o.end.time_key() <= end_date.time_key()
        }
    &&& (end.day_index() + r.len() * step_days) * 86400 + end.secs_of_day()
        > end_date.time_key()
    &&& (end.time_key() <= end_date.time_key() ==> r.len() >= 1)
}

/// Generates the occurrences of a day-stepped rule: start at the base
/// range and add `step_days` days to both ends until the end passes
/// `end_date` (inclusive bound).
pub fn generate_fixed_step(
    start: &DateTime,
    end: &DateTime,
    step_days: i64,
    end_date: &DateTime,
) -> (out: Vec<TimeRange>)
    requires
        start.valid(),
        end.valid(),
        end_date.valid(),
        start.time_key() <= end.time_key(),
        1 <= step_days <= 0x40000,
    ensures
        fixed_step_occurrences_ok(out@, *start, *end, step_days as int, *end_date),
        occurrences_ordered(out@),
        out@.len() <= 0x400000,
{
    proof {
        lemma_day_index_in_range(*start);
        lemma_day_index_in_range(*end);
        lemma_day_index_in_range(*end_date);
        lemma_days_before_year_bounds(10000);
        // A later key never means an earlier day.
        if start.day_index() > end.day_index() {
            assert(false);
        }
    }
    let mut out: Vec<TimeRange> = Vec::new();
    let mut cur_s: DateTime = *start;
    let mut cur_e: DateTime = *end;
    loop
        invariant_except_break
            cur_s.day_index() == start.day_index() + out@.len() * step_days,
            cur_e.day_index() == end.day_index() + out@.len() * step_days,
            forall|i: int|
                0 <= i < out@.len() ==> (#[trigger] out@[i]).start.time_key()
                    < cur_s.time_key(),
        invariant
            start.valid(),
            end.valid(),
            end_date.valid(),
            cur_s.valid(),
            cur_e.valid(),
            1 <= step_days <= 0x40000,
            start.day_index() <= end.day_index(),
            cur_s.hour == start.hour,
            cur_s.minute == start.minute,
            cur_s.second == start.second,
            cur_e.hour == end.hour,
            cur_e.minute == end.minute,
            cur_e.second == end.second,
            forall|i: int|
                0 <= i < out@.len() ==> {
                    let o = #[trigger] out@[i];
                    &&& o.start.valid()
                    &&& o.end.valid()
                    &&& o.start.day_index() == start.day_index() + i * step_days
                    &&& o.end.day_index() == end.day_index() + i * step_days
                    &&& o.start.hour == start.hour
                    &&& o.start.minute == start.minute
                    &&& o.start.second == start.second
                    &&& o.end.hour == end.hour
                    &&& o.end.minute == end.minute
                    &&& o.end.second == end.second
                    &&& o.end.time_key() <= end_date.time_key()
                },
            occurrences_ordered(out@),
            out@.len() == 0 ==> cur_e == *end,
            cur_e.time_key() < days_before_year(10000) * 86400,
        ensures
            fixed_step_occurrences_ok(out@, *start, *end, step_days as int, *end_date),
            occurrences_ordered(out@),
            out@.len() <= 0x400000,
        decreases days_before_year(10000) * 86400 - cur_e.time_key(),
    {
        if !cur_e.le(end_date) {
            proof {
                let k = out@.len() as int;
                assert(k <= k * step_days) by (nonlinear_arith)
                    requires
                        k >= 0,
                        step_days >= 1,
                ;
                lemma_day_index_in_range(cur_e);
                lemma_day_index_in_range(*end);
                lemma_days_before_year_bounds(10000);
            }
            break ;
        }
        let ghost prev = out@;
        out.push(TimeRange { start: cur_s, end: cur_e });
        proof {
            assert forall|i: int| 0 <= i && i + 1 < out@.len() implies (#[trigger] out@[i]).start.time_key()
                < out@[i + 1].start.time_key() by {
                if i + 1 < prev.len() as int {
                    assert(out@[i] == prev[i]);
                    assert(out@[i + 1] == prev[i + 1]);
                } else {
                    assert(out@[i] == prev[i]);
                    assert(out@[i + 1] == TimeRange { start: cur_s, end: cur_e });
                }
            }
        }
        match (cur_s.checked_add_days(step_days), cur_e.checked_add_days(step_days)) {
            (Some(ns), Some(ne)) => {
                proof {
                    let k = out@.len() - 1;
                    assert((k + 1) * step_days == k * step_days + step_days) by (nonlinear_arith);
                    lemma_day_index_in_range(ne);
                }
                cur_s = ns;
                cur_e = ne;
            },
            _ => {
                proof {
                    // The end side could not advance: with the start never
                    // past the end, a failed start advance forces a failed
                    // end advance too, so the next candidate end lies past
                    // year 9999 and so past every valid end date.
                    let k = out@.len() - 1;
                    assert((k + 1) * step_days == k * step_days + step_days) by (nonlinear_arith);
                    assert(k <= k * step_days) by (nonlinear_arith)
                        requires
                            k >= 0,
                            step_days >= 1,
                    ;
                    assert(cur_e.day_index() + step_days >= days_before_year(10000));
                    lemma_day_index_in_range(*end_date);
                    lemma_day_index_in_range(cur_e);
                    lemma_day_index_in_range(*end);
                    lemma_days_before_year_bounds(10000);
                }
                break ;
            },
        }
    }
    out
}

/// The occurrences of a month-stepped rule: the `i`-th pair is the base
/// range shifted `i` times by `months` calendar months (cumulatively, so a
/// clamped day stays clamped), every emitted end lies at or before
/// `end_date`, and the next candidate past the sequence would not.
pub open spec fn month_step_occurrences_ok(
    r: Seq<TimeRange>,
    start: DateTime,
    end: DateTime,
    months: int,
    end_date: DateTime,
) -> bool {
    &&& forall|i: int|
        0 <= i < r.len() ==> {
            let o = #[trigger] r[i];
            &&& o.start.valid()
            &&& o.end.valid()
            &&& o.start.civil() == iter_shift_civil(start.civil(), months, i)
            &&& o.end.civil() == iter_shift_civil(end.civil(), months, i)
            &&& o.start.hour == start.hour
            &&& o.start.minute == start.minute
            &&& o.start.second == start.second
            &&& o.end.hour == end.hour
            &&& o.end.minute == end.minute
            &&& o.end.second == end.second
            &&& o.end.time_key() <= end_date.time_key()
        }
    &&& civil_key(iter_shift_civil(end.civil(), months, r.len() as int), end.secs_of_day())
        > end_date.time_key()
    &&& (end.time_key() <= end_date.time_key() ==> r.len() >= 1)
}

/// Generates the occurrences of a month-stepped rule: start at the base
/// range and shift both ends by `months` calendar months until the end
/// passes `end_date` (inclusive bound).
pub fn generate_month_step(
    start: &DateTime,
    end: &DateTime,
    months: i64,
    end_date: &DateTime,
) -> (out: Vec<TimeRange>)
    requires
        start.valid(),
        end.valid(),
        end_date.valid(),
        start.time_key() <= end.time_key(),
        1 <= months <= 0x10_0000,
    ensures
        month_step_occurrences_ok(out@, *start, *end, months as int, *end_date),
        occurrences_ordered(out@),
        out@.len() <= 0x400000,
{
    proof {
        lemma_key_le_month_index_le(*start, *end);
        lemma_day_index_in_range(*end);
    }
    let mut out: Vec<TimeRange> = Vec::new();
    let mut cur_s: DateTime = *start;
    let mut cur_e: DateTime = *end;
    loop
        invariant_except_break
            cur_s.civil() == iter_shift_civil(start.civil(), months as int, out@.len() as int),
            cur_e.civil() == iter_shift_civil(end.civil(), months as int, out@.len() as int),
            forall|i: int|
                0 <= i < out@.len() ==> (#[trigger] out@[i]).start.time_key()
                    < cur_s.time_key(),
        invariant
            start.valid(),
            end.valid(),
            end_date.valid(),
            cur_s.valid(),
            cur_e.valid(),
            1 <= months <= 0x10_0000,
            month_index(cur_s.civil()) <= month_index(cur_e.civil()),
            cur_s.hour == start.hour,
            cur_s.minute == start.minute,
            cur_s.second == start.second,
            cur_e.hour == end.hour,
            cur_e.minute == end.minute,
            cur_e.second == end.second,
            forall|i: int|
                0 <= i < out@.len() ==> {
                    let o = #[trigger] out@[i];
                    &&& o.start.valid()
                    &&& o.end.valid()
                    &&& o.start.civil() == iter_shift_civil(start.civil(), months as int, i)
                    &&& o.end.civil() == iter_shift_civil(end.civil(), months as int, i)
                    &&& o.start.hour == start.hour
                    &&& o.start.minute == start.minute
                    &&& o.start.second == start.second
                    &&& o.end.hour == end.hour
                    &&& o.end.minute == end.minute
                    &&& o.end.second == end.second
                    &&& o.end.time_key() <= end_date.time_key()
                },
            occurrences_ordered(out@),
            out@.len() == 0 ==> cur_e == *end,
            cur_e.time_key() < days_before_year(10000) * 86400,
        ensures
            month_step_occurrences_ok(out@, *start, *end, months as int, *end_date),
            occurrences_ordered(out@),
            out@.len() <= 0x400000,
        decreases days_before_year(10000) * 86400 - cur_e.time_key(),
    {
        if !cur_e.le(end_date) {
            proof {
                let k = out@.len() as int;
                lemma_iter_shift_civil_props(end.civil(), months as int, k);
                assert(k <= k * months) by (nonlinear_arith)
                    requires
                        k >= 0,
                        months >= 1,
                ;
            }
            break ;
        }
        let ghost prev = out@;
        out.push(TimeRange { start: cur_s, end: cur_e });
        proof {
            assert forall|i: int| 0 <= i && i + 1 < out@.len() implies (#[trigger] out@[i]).start.time_key()
                < out@[i + 1].start.time_key() by {
                if i + 1 < prev.len() as int {
                    assert(out@[i] == prev[i]);
                    assert(out@[i + 1] == prev[i + 1]);
                } else {
                    assert(out@[i] == prev[i]);
                    assert(out@[i + 1] == TimeRange { start: cur_s, end: cur_e });
                }
            }
            let k = out@.len() - 1;
            assert(iter_shift_civil(start.civil(), months as int, k + 1) == shift_civil(
                iter_shift_civil(start.civil(), months as int, k),
                months as int,
            ));
            assert(iter_shift_civil(end.civil(), months as int, k + 1) == shift_civil(
                iter_shift_civil(end.civil(), months as int, k),
                months as int,
            ));
        }
        match (cur_s.checked_shift_months(months), cur_e.checked_shift_months(months)) {
            (Some(ns), Some(ne)) => {
                proof {
                    lemma_shift_months_increases(cur_s, ns, months as int);
                    lemma_shift_months_increases(cur_e, ne, months as int);
                    lemma_shift_civil_props(cur_s.civil(), months as int);
                    lemma_shift_civil_props(cur_e.civil(), months as int);
                    lemma_day_index_in_range(ne);
                }
                cur_s = ns;
                cur_e = ne;
            },
            _ => {
                proof {
                    // A failed shift means the target year lies past 9999.
                    // The start's month never lies after the end's, so the
                    // end's shift failed too: the next candidate end lies
                    // past every valid end date.
                    lemma_div_is_ordered(
                        month_index(cur_s.civil()) + months,
                        month_index(cur_e.civil()) + months,
                        12,
                    );
                    let c1 = shift_civil(cur_e.civil(), months as int);
                    lemma_shift_civil_props(cur_e.civil(), months as int);
                    lemma_civil_index_at_least_year(c1);
                    lemma_days_before_year_mono(10000, c1.year);
                    lemma_day_index_in_range(*end_date);
                    let k = out@.len() as int - 1;
                    lemma_iter_shift_civil_props(end.civil(), months as int, k);
                    assert(k <= k * months) by (nonlinear_arith)
                        requires
                            k >= 0,
                            months >= 1,
                    ;
                }
                break ;
            },
        }
    }
    out
}

/// A start/end pair of timestamp keys, used to state what a weekly rule
/// emits.
pub struct KeyPair {
    pub start: int,
    pub end: int,
}

/// The key pair of one occurrence.
pub open spec fn key_pair_of(o: TimeRange) -> KeyPair {
    KeyPair { start: o.start.time_key(), end: o.end.time_key() }
}

/// The key pairs of a whole occurrence sequence.
pub open spec fn keys_of(r: Seq<TimeRange>) -> Seq<KeyPair> {
    r.map_values(|o: TimeRange| key_pair_of(o))
}

/// The key pairs a weekly rule emits, walking day by day from the pair of
/// keys `(s, e)`: each day whose end falls on a listed weekday is
/// emitted, until the end key passes `end` (inclusive bound).
pub open spec fn weekly_key_pairs(s: int, e: int, end: int, days: Seq<Weekday>) -> Seq<KeyPair>
    decreases end + 86400 - e,
{
    if e > end {
        Seq::empty()
    } else {
        let rest = weekly_key_pairs(s + 86400, e + 86400, end, days);
        if days.contains(spec_weekday_of_index(e / 86400)) {
            seq![KeyPair { start: s, end: e }] + rest
        } else {
            rest
        }
    }
}

/// The occurrences of a weekly rule: exactly the day-by-day walk of
/// `weekly_key_pairs`, each member a real pair of timestamps moved in
/// lockstep from the base range, ending on a listed weekday at or before
/// `end_date`.
pub open spec fn weekly_occurrences_ok(
    r: Seq<TimeRange>,
    start: DateTime,
    end: DateTime,
    days: Seq<Weekday>,
    end_date: DateTime,
) -> bool {
    &&& keys_of(r) == weekly_key_pairs(
        start.time_key(),
        end.time_key(),
        end_date.time_key(),
        days,
    )
    &&& forall|i: int|
        0 <= i < r.len() ==> {
            let o = #[trigger] r[i];
            &&& o.start.valid()
            &&& o.end.valid()
            &&& o.start.day_index() - start.day_index() == o.end.day_index() - end.day_index()
            &&& o.start.day_index() >= start.day_index()
            &&& o.start.hour == start.hour
            &&& o.start.minute == start.minute
            &&& o.start.second == start.second
            &&& o.end.hour == end.hour
            &&& o.end.minute == end.minute
            &&& o.end.second == end.second
            &&& o.end.time_key() <= end_date.time_key()
            &&& days.contains(spec_weekday_of_index(o.end.day_index()))
        }
}

/// Does the weekday list contain `w`?
pub fn contains_day(days: &Vec<Weekday>, w: Weekday) -> (r: bool)
    ensures
        r == days@.contains(w),
{
    let mut i: usize = 0;
    while i < days.len()
        invariant
            i <= days.len(),
            forall|j: int| 0 <= j < i ==> days@[j] != w,
        decreases days.len() - i,
    {
        if days[i] == w {
            return true;
        }
        i = i + 1;
    }
    false
}

/// Generates the occurrences of a weekly rule: walk day by day from the
/// base range, emit each pair whose end falls on a listed weekday, and
/// stop once the end passes `end_date` (inclusive bound).
pub fn generate_weekly(
    start: &DateTime,
    end: &DateTime,
    days: &Vec<Weekday>,
    end_date: &DateTime,
) -> (out: Vec<TimeRange>)
    requires
        start.valid(),
        end.valid(),
        end_date.valid(),
        start.time_key() <= end.time_key(),
    ensures
        weekly_occurrences_ok(out@, *start, *end, days@, *end_date),
        occurrences_ordered(out@),
        out@.len() <= 0x400000,
{
    proof {
        lemma_day_index_in_range(*start);
        lemma_day_index_in_range(*end);
        lemma_day_index_in_range(*end_date);
        lemma_days_before_year_bounds(10000);
        if start.day_index() > end.day_index() {
            assert(false);
        }
    }
    let mut out: Vec<TimeRange> = Vec::new();
    let mut cur_s: DateTime = *start;
    let mut cur_e: DateTime = *end;
    loop
        invariant_except_break
            keys_of(out@) + weekly_key_pairs(
                cur_s.time_key(),
                cur_e.time_key(),
                end_date.time_key(),
                days@,
            ) == weekly_key_pairs(
                start.time_key(),
                end.time_key(),
                end_date.time_key(),
                days@,
            ),
            forall|i: int|
                0 <= i < out@.len() ==> (#[trigger] out@[i]).start.time_key()
                    < cur_s.time_key(),
            out@.len() <= cur_e.day_index() - end.day_index(),
        invariant
            start.valid(),
            end.valid(),
            end_date.valid(),
            cur_s.valid(),
            cur_e.valid(),
            start.day_index() <= end.day_index(),
            cur_s.day_index() - start.day_index() == cur_e.day_index() - end.day_index(),
            cur_s.day_index() >= start.day_index(),
            cur_s.hour == start.hour,
            cur_s.minute == start.minute,
            cur_s.second == start.second,
            cur_e.hour == end.hour,
            cur_e.minute == end.minute,
            cur_e.second == end.second,
            forall|i: int|
                0 <= i < out@.len() ==> {
                    let o = #[trigger] out@[i];
                    &&& o.start.valid()
                    &&& o.end.valid()
                    &&& o.start.day_index() - start.day_index() == o.end.day_index()
                        - end.day_index()
                    &&& o.start.day_index() >= start.day_index()
                    &&& o.start.hour == start.hour
                    &&& o.start.minute == start.minute
                    &&& o.start.second == start.second
                    &&& o.end.hour == end.hour
                    &&& o.end.minute == end.minute
                    &&& o.end.second == end.second
                    &&& o.end.time_key() <= end_date.time_key()
                    &&& days@.contains(spec_weekday_of_index(o.end.day_index()))
                },
            occurrences_ordered(out@),
            cur_e.time_key() < days_before_year(10000) * 86400,
        ensures
            weekly_occurrences_ok(out@, *start, *end, days@, *end_date),
            occurrences_ordered(out@),
            out@.len() <= 0x400000,
        decreases days_before_year(10000) * 86400 - cur_e.time_key(),
    {
        proof {
            lemma_day_index_in_range(cur_e);
            lemma_day_index_in_range(*end);
            lemma_days_before_year_bounds(10000);
        }
        if !cur_e.le(end_date) {
            proof {
                assert(weekly_key_pairs(
                    cur_s.time_key(),
                    cur_e.time_key(),
                    end_date.time_key(),
                    days@,
                ) =~= Seq::<KeyPair>::empty());
                assert(keys_of(out@) + Seq::<KeyPair>::empty() =~= keys_of(out@));
            }
            break ;
        }
        let wd: Weekday = cur_e.weekday();
        let ghost prev = out@;
        let ghost rest = weekly_key_pairs(
            cur_s.time_key() + 86400,
            cur_e.time_key() + 86400,
            end_date.time_key(),
            days@,
        );
        proof {
            // The weekday of the end key's day is the end's weekday.
            vstd::arithmetic::div_mod::lemma_fundamental_div_mod_converse(
                cur_e.time_key(),
                86400,
                cur_e.day_index(),
                cur_e.secs_of_day(),
            );
        }
        let hit: bool = contains_day(days, wd);
        if hit {
            out.push(TimeRange { start: cur_s, end: cur_e });
            proof {
                assert forall|i: int|
                    0 <= i && i + 1 < out@.len() implies (#[trigger] out@[i]).start.time_key()
                    < out@[i + 1].start.time_key() by {
                    if i + 1 < prev.len() as int {
                        assert(out@[i] == prev[i]);
                        assert(out@[i + 1] == prev[i + 1]);
                    } else {
                        assert(out@[i] == prev[i]);
                        assert(out@[i + 1] == TimeRange { start: cur_s, end: cur_e });
                    }
                }
                let kp = key_pair_of(TimeRange { start: cur_s, end: cur_e });
                assert(keys_of(out@) =~= keys_of(prev).push(kp));
                assert(weekly_key_pairs(
                    cur_s.time_key(),
                    cur_e.time_key(),
                    end_date.time_key(),
                    days@,
                ) == seq![kp] + rest);
                assert(keys_of(prev).push(kp) + rest =~= keys_of(prev) + (seq![kp] + rest));
            }
        } else {
            proof {
                assert(weekly_key_pairs(
                    cur_s.time_key(),
                    cur_e.time_key(),
                    end_date.time_key(),
                    days@,
                ) == rest);
            }
        }
        match (cur_s.checked_add_days(1), cur_e.checked_add_days(1)) {
            (Some(ns), Some(ne)) => {
                proof {
                    lemma_day_index_in_range(ne);
                }
                cur_s = ns;
                cur_e = ne;
            },
            _ => {
                proof {
                    // The next end day lies past year 9999, hence past
                    // every valid end date: nothing more is emitted.
                    assert(cur_e.day_index() + 1 >= days_before_year(10000));
                    lemma_day_index_in_range(*end_date);
                    assert(rest =~= Seq::<KeyPair>::empty());
                    assert(keys_of(out@) + Seq::<KeyPair>::empty() =~= keys_of(out@));
                }
                break ;
            },
        }
    }
    out
}

/// Expands a fully specified rule into the ordered, finite sequence of
/// occurrence time-ranges it implies, eagerly.
///
/// Whatever the kind: start times grow strictly along the sequence, every
/// occurrence is a pair of real timestamps, and every occurrence ends at
/// or before the rule's end date; for weekly rules every occurrence ends
/// on a listed weekday.
pub fn generate_occurrences(rule: &ResolvedRule) -> (out: Vec<TimeRange>)
    requires
        rule.wf(),
        rule.start_time.time_key() <= rule.end_time.time_key(),
    ensures
        occurrences_ordered(out@),
        out@.len() <= 0x400000,
        rule.rtype is Daily ==> fixed_step_occurrences_ok(
            out@,
            rule.start_time,
            rule.end_time,
            rule.step as int,
            rule.end_date,
        ),
        rule.rtype is Weekly ==> weekly_occurrences_ok(
            out@,
            rule.start_time,
            rule.end_time,
            rule.days_of_week@,
            rule.end_date,
        ),
        rule.rtype is Monthly ==> month_step_occurrences_ok(
            out@,
            rule.start_time,
            rule.end_time,
            rule.step as int,
            rule.end_date,
        ),
        rule.rtype is Yearly ==> month_step_occurrences_ok(
            out@,
            rule.start_time,
            rule.end_time,
            12 * rule.step as int,
            rule.end_date,
        ),
        forall|i: int|
            0 <= i < out@.len() ==> (#[trigger] out@[i]).start.valid() && out@[i].end.valid(),
        forall|i: int|
            0 <= i < out@.len() ==> (#[trigger] out@[i]).end.time_key()
                <= rule.end_date.time_key(),
        rule.rtype is Weekly ==> forall|i: int|
            0 <= i < out@.len() ==> rule.days_of_week@.contains(
                spec_weekday_of_index((#[trigger] out@[i]).end.day_index()),
            ),
{
    match rule.rtype {
        RecurrenceType::Daily => generate_fixed_step(
            &rule.start_time,
            &rule.end_time,
            rule.step as i64,
            &rule.end_date,
        ),
        RecurrenceType::Weekly => generate_weekly(
            &rule.start_time,
            &rule.end_time,
            &rule.days_of_week,
            &rule.end_date,
        ),
        RecurrenceType::Monthly => generate_month_step(
            &rule.start_time,
            &rule.end_time,
            rule.step as i64,
            &rule.end_date,
        ),
        RecurrenceType::Yearly => generate_month_step(
            &rule.start_time,
            &rule.end_time,
            12 * rule.step as i64,
            &rule.end_date,
        ),
    }
}

} // verus!
