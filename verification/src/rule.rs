//! Recurrence rules: the inbound configuration of an event, and its
//! resolution into a fully specified rule where step, repetition count and
//! inclusive end date are all concrete.

use crate::time::{
    civil_key, days_before_year, iter_shift_civil, lemma_civil_index_at_least_year,
    lemma_day_index_in_range, lemma_days_before_year_bounds, lemma_days_before_year_mono,
    lemma_iter_shift_civil_props, lemma_iter_shift_year_mono, lemma_shift_civil_props,
    lemma_shift_months_increases, shift_civil, DateTime, Weekday,
};
use vstd::arithmetic::div_mod::{lemma_div_basics, lemma_div_is_ordered_by_denominator};
use vstd::arithmetic::mul::lemma_mul_inequality;
use vstd::prelude::*;

verus! {

/// The kind of a repeating rule.
#[derive(Clone, Copy, Debug, PartialEq, Eq, Structural)]
pub enum RecurrenceType {
    Daily,
    Weekly,
    Monthly,
    Yearly,
}

/// How many units a rule repeats for when the caller supplies neither a
/// repetition count nor an end date: roughly two years' worth per kind.
pub open spec fn default_repetitions(t: RecurrenceType) -> int {
    match t {
        RecurrenceType::Daily => 730,
        RecurrenceType::Weekly => 156,
        RecurrenceType::Monthly => 60,
        RecurrenceType::Yearly => 10,
    }
}

/// An event's inbound scheduling configuration: one repeating kind with a
/// base time-range and optional step, repetition count and end date, or a
/// single occurrence.
#[derive(Clone, Debug)]
pub enum EventConfiguration {
    Daily {
        start_time: DateTime,
        end_time: DateTime,
        step: Option<i16>,
        repetitions: Option<i16>,
        end_date: Option<DateTime>,
    },
    Weekly {
        start_time: DateTime,
        end_time: DateTime,
        step: Option<i16>,
        repetitions: Option<i32>,
        end_date: Option<DateTime>,
        days_of_week: Vec<Weekday>,
    },
    Monthly {
        start_time: DateTime,
        end_time: DateTime,
        step: Option<i16>,
        repetitions: Option<i16>,
        end_date: Option<DateTime>,
    },
    Yearly {
        start_time: DateTime,
        end_time: DateTime,
        step: Option<i16>,
        repetitions: Option<i16>,
        end_date: Option<DateTime>,
    },
    Individual {
        start_time: DateTime,
        end_time: DateTime,
    },
}

impl EventConfiguration {
    /// The start of the base time-range.
    pub open spec fn base_start(self) -> DateTime {
        match self {
            EventConfiguration::Daily { start_time, .. } => start_time,
            EventConfiguration::Weekly { start_time, .. } => start_time,
            EventConfiguration::Monthly { start_time, .. } => start_time,
            EventConfiguration::Yearly { start_time, .. } => start_time,
            EventConfiguration::Individual { start_time, .. } => start_time,
        }
    }

    /// The end of the base time-range.
    pub open spec fn base_end(self) -> DateTime {
        match self {
            EventConfiguration::Daily { end_time, .. } => end_time,
            EventConfiguration::Weekly { end_time, .. } => end_time,
            EventConfiguration::Monthly { end_time, .. } => end_time,
            EventConfiguration::Yearly { end_time, .. } => end_time,
            EventConfiguration::Individual { end_time, .. } => end_time,
        }
    }

    /// The step the caller supplied, if any.
    pub open spec fn given_step(self) -> Option<i16> {
        match self {
            EventConfiguration::Daily { step, .. } => step,
            EventConfiguration::Weekly { step, .. } => step,
            EventConfiguration::Monthly { step, .. } => step,
            EventConfiguration::Yearly { step, .. } => step,
            EventConfiguration::Individual { .. } => None,
        }
    }

    /// The repetition count the caller supplied, if any.
    pub open spec fn given_repetitions(self) -> Option<int> {
        match self {
            EventConfiguration::Daily { repetitions, .. } => match repetitions {
                Some(n) => Some(n as int),
                None => None,
            },
            EventConfiguration::Weekly { repetitions, .. } => match repetitions {
                Some(n) => Some(n as int),
                None => None,
            },
            EventConfiguration::Monthly { repetitions, .. } => match repetitions {
                Some(n) => Some(n as int),
                None => None,
            },
            EventConfiguration::Yearly { repetitions, .. } => match repetitions {
                Some(n) => Some(n as int),
                None => None,
            },
            EventConfiguration::Individual { .. } => None,
        }
    }

    /// The inclusive end date the caller supplied, if any.
    pub open spec fn given_end_date(self) -> Option<DateTime> {
        match self {
            EventConfiguration::Daily { end_date, .. } => end_date,
            EventConfiguration::Weekly { end_date, .. } => end_date,
            EventConfiguration::Monthly { end_date, .. } => end_date,
            EventConfiguration::Yearly { end_date, .. } => end_date,
            EventConfiguration::Individual { .. } => None,
        }
    }

    /// The weekday filter: the supplied days for a weekly rule, empty for
    /// every other kind.
    pub open spec fn spec_days(self) -> Seq<Weekday> {
        match self {
            EventConfiguration::Weekly { days_of_week, .. } => days_of_week@,
            _ => Seq::empty(),
        }
    }

    /// The recurrence kind of a repeating configuration.
    pub open spec fn rec_type(self) -> RecurrenceType
        recommends
            !(self is Individual),
    {
        match self {
            EventConfiguration::Daily { .. } => RecurrenceType::Daily,
            EventConfiguration::Weekly { .. } => RecurrenceType::Weekly,
            EventConfiguration::Monthly { .. } => RecurrenceType::Monthly,
            EventConfiguration::Yearly { .. } => RecurrenceType::Yearly,
            EventConfiguration::Individual { .. } => RecurrenceType::Daily,
        }
    }

    /// Every timestamp the configuration carries names a real calendar
    /// date and time.
    pub open spec fn times_valid(self) -> bool {
        &&& self.base_start().valid()
        &&& self.base_end().valid()
        &&& (self.given_end_date() matches Some(d) ==> d.valid())
    }

    /// A supplied field is out of its range: a step below one, a negative
    /// repetition count, or a weekly rule with an empty weekday set.
    pub open spec fn malformed(self) -> bool {
        ||| (self.given_step() matches Some(s) && s <= 0)
        ||| (self.given_repetitions() matches Some(n) && n < 0)
        ||| (self matches EventConfiguration::Weekly { days_of_week, .. } && days_of_week@.len()
            == 0)
    }

    /// The step with its default applied: one unit when not supplied.
    pub open spec fn resolved_step(self) -> int {
        match self.given_step() {
            Some(s) => s as int,
            None => 1,
        }
    }

    /// The repetition count used when no end date is supplied: the given
    /// count, or the kind's default.
    pub open spec fn fallback_repetitions(self) -> int {
        match self.given_repetitions() {
            Some(n) => n,
            None => default_repetitions(self.rec_type()),
        }
    }

    /// For month-stepped kinds: how many calendar months one step covers.
    pub open spec fn months_per_step(self) -> int
        recommends
            self is Monthly || self is Yearly,
    {
        if self is Yearly {
            12 * self.resolved_step()
        } else {
            self.resolved_step()
        }
    }

    /// For day-stepped kinds: how many seconds one step covers.
    pub open spec fn step_seconds(self) -> int
        recommends
            self is Daily || self is Weekly,
    {
        if self is Weekly {
            self.resolved_step() * 7 * 86400
        } else {
            self.resolved_step() * 86400
        }
    }

    /// When the end date has to be derived, stepping the base end by the
    /// fallback repetition count stays within year 9999.
    pub open spec fn in_range(self) -> bool {
        match self.given_end_date() {
            Some(_) => true,
            None => match self {
                EventConfiguration::Daily { .. } => self.base_end().day_index()
                    + self.fallback_repetitions() * self.resolved_step() < days_before_year(10000),
                EventConfiguration::Weekly { .. } => self.base_end().day_index()
                    + self.fallback_repetitions() * (self.resolved_step() * 7) < days_before_year(
                    10000,
                ),
                EventConfiguration::Monthly { .. } => iter_shift_civil(
                    self.base_end().civil(),
                    self.months_per_step(),
                    self.fallback_repetitions(),
                ).year <= 9999,
                EventConfiguration::Yearly { .. } => iter_shift_civil(
                    self.base_end().civil(),
                    self.months_per_step(),
                    self.fallback_repetitions(),
                ).year <= 9999,
                EventConfiguration::Individual { .. } => true,
            },
        }
    }
}

/// A fully specified repeating rule: the base time-range together with a
/// concrete step, repetition count, inclusive end date and, for weekly
/// rules, the weekday filter.
#[derive(Clone, Debug)]
pub struct ResolvedRule {
    pub rtype: RecurrenceType,
    pub start_time: DateTime,
    pub end_time: DateTime,
    pub step: i16,
    pub repetitions: i64,
    pub end_date: DateTime,
    pub days_of_week: Vec<Weekday>,
}

impl ResolvedRule {
    /// Well-formedness: real timestamps, a positive step, a non-negative
    /// repetition count, and a weekday filter exactly for weekly rules.
    pub open spec fn wf(self) -> bool {
        &&& self.start_time.valid()
        &&& self.end_time.valid()
        &&& self.end_date.valid()
        &&& self.step >= 1
        &&& self.repetitions >= 0
        &&& (self.rtype is Weekly ==> self.days_of_week@.len() > 0)
        &&& (!(self.rtype is Weekly) ==> self.days_of_week@.len() == 0)
    }
}

/// The repetition count derived from a supplied end date `d`: how many
/// whole steps past the base end still end at or before `d` (zero when
/// even the base range ends past `d`).
pub open spec fn derived_repetitions_ok(c: EventConfiguration, d: DateTime, reps: int) -> bool {
    match c {
        EventConfiguration::Daily { .. } => if d.time_key() < c.base_end().time_key() {
            reps == 0
        } else {
            reps == (d.time_key() - c.base_end().time_key()) / c.step_seconds()
        },
        EventConfiguration::Weekly { .. } => if d.time_key() < c.base_end().time_key() {
            reps == 0
        } else {
            reps == (d.time_key() - c.base_end().time_key()) / c.step_seconds()
        },
        EventConfiguration::Monthly { .. } => derived_shift_repetitions_ok(c, d, reps),
        EventConfiguration::Yearly { .. } => derived_shift_repetitions_ok(c, d, reps),
        EventConfiguration::Individual { .. } => true,
    }
}

/// Calendar-aware repetition derivation for month-stepped kinds: `reps`
/// cumulative shifts of the base end still lie at or before `d`, while one
/// more shift lies after it.
pub open spec fn derived_shift_repetitions_ok(c: EventConfiguration, d: DateTime, reps: int) -> bool {
    let e = c.base_end();
    let n = c.months_per_step();
    if d.time_key() < e.time_key() {
        reps == 0
    } else {
        &&& reps >= 0
        &&& civil_key(iter_shift_civil(e.civil(), n, reps), e.secs_of_day()) <= d.time_key()
        &&& civil_key(iter_shift_civil(e.civil(), n, reps + 1), e.secs_of_day()) > d.time_key()
    }
}

/// The end date derived from the repetition count `reps`: the base end
/// stepped forward `reps` times, calendar-aware for month-stepped kinds.
pub open spec fn derived_end_date_ok(c: EventConfiguration, reps: int, end_date: DateTime) -> bool {
    match c {
        EventConfiguration::Daily { .. } => {
            &&& end_date.valid()
            &&& end_date.day_index() == c.base_end().day_index() + reps * c.resolved_step()
            &&& end_date.secs_of_day() == c.base_end().secs_of_day()
        },
        EventConfiguration::Weekly { .. } => {
            &&& end_date.valid()
            &&& end_date.day_index() == c.base_end().day_index() + reps * (c.resolved_step() * 7)
            &&& end_date.secs_of_day() == c.base_end().secs_of_day()
        },
        EventConfiguration::Monthly { .. } => {
            &&& end_date.valid()
            &&& end_date.civil() == iter_shift_civil(c.base_end().civil(), c.months_per_step(), reps)
            &&& end_date.secs_of_day() == c.base_end().secs_of_day()
        },
        EventConfiguration::Yearly { .. } => {
            &&& end_date.valid()
            &&& end_date.civil() == iter_shift_civil(c.base_end().civil(), c.months_per_step(), reps)
            &&& end_date.secs_of_day() == c.base_end().secs_of_day()
        },
        EventConfiguration::Individual { .. } => true,
    }
}

/// The whole resolution policy. The step defaults to one unit. A supplied
/// end date is kept and the repetition count recomputed from it, a
/// supplied count overridden; with no end date supplied, the count falls
/// back to the given one or the kind's default, and the end date is the
/// base end stepped forward that many times.
pub open spec fn resolution_ok(
    c: EventConfiguration,
    step: int,
    reps: int,
    end_date: DateTime,
) -> bool {
    &&& step == c.resolved_step()
    &&& match c.given_end_date() {
        Some(d) => {
            &&& end_date == d
            &&& derived_repetitions_ok(c, d, reps)
        },
        None => {
            &&& reps == c.fallback_repetitions()
            &&& derived_end_date_ok(c, reps, end_date)
        },
    }
}

/// Copies a weekday list element by element.
pub fn copy_days(days: &Vec<Weekday>) -> (r: Vec<Weekday>)
    ensures
        r@ == days@,
{
    let mut r: Vec<Weekday> = Vec::new();
    let mut i: usize = 0;
    while i < days.len()
        invariant
            i <= days.len(),
            r@ == days@.subrange(0, i as int),
        decreases days.len() - i,
    {
        r.push(days[i]);
        proof {
            assert(r@ =~= days@.subrange(0, i + 1));
        }
        i = i + 1;
    }
    proof {
        assert(r@ =~= days@);
    }
    r
}

/// The repetition count a supplied end date implies for a day-stepped
/// kind: whole steps of `step_secs` seconds between the base end and `d`.
fn derive_reps_fixed(base_end: &DateTime, d: &DateTime, step_secs: i64) -> (r: i64)
    requires
        base_end.valid(),
        d.valid(),
        86400 <= step_secs <= 0x100_0000_0000,
    ensures
        d.time_key() < base_end.time_key() ==> r == 0,
        d.time_key() >= base_end.time_key() ==> r == (d.time_key() - base_end.time_key())
            / step_secs as int,
        r >= 0,
{
    proof {
        lemma_day_index_in_range(*base_end);
        lemma_day_index_in_range(*d);
        lemma_days_before_year_bounds(10000);
    }
    let ek: i64 = base_end.to_time_key();
    let dk: i64 = d.to_time_key();
    if dk < ek {
        0
    } else {
        let diff: u64 = (dk - ek) as u64;
        let q: u64 = diff / (step_secs as u64);
        proof {
            lemma_div_is_ordered_by_denominator(diff as int, 1, step_secs as int);
            lemma_div_basics(diff as int);
        }
        q as i64
    }
}

/// The repetition count a supplied end date implies for a month-stepped
/// kind: how many cumulative `n`-month shifts of the base end still lie at
/// or before `d`.
fn derive_reps_shift(base_end: &DateTime, d: &DateTime, n: i64) -> (r: i64)
    requires
        base_end.valid(),
        d.valid(),
        1 <= n <= 0x10_0000,
    ensures
        d.time_key() < base_end.time_key() ==> r == 0,
        d.time_key() >= base_end.time_key() ==> {
            &&& r >= 0
            &&& civil_key(
                iter_shift_civil(base_end.civil(), n as int, r as int),
                base_end.secs_of_day(),
            ) <= d.time_key()
            &&& civil_key(
                iter_shift_civil(base_end.civil(), n as int, r as int + 1),
                base_end.secs_of_day(),
            ) > d.time_key()
        },
{
    if !base_end.le(d) {
        return 0;
    }
    let mut reps: i64 = 0;
    let mut cur: DateTime = *base_end;
    loop
        invariant
            base_end.valid(),
            d.valid(),
            cur.valid(),
            1 <= n <= 0x10_0000,
            0 <= reps <= 120000,
            cur.civil() == iter_shift_civil(base_end.civil(), n as int, reps as int),
            cur.hour == base_end.hour,
            cur.minute == base_end.minute,
            cur.second == base_end.second,
            cur.time_key() <= d.time_key(),
            base_end.time_key() <= d.time_key(),
        ensures
            0 <= reps,
            cur.civil() == iter_shift_civil(base_end.civil(), n as int, reps as int),
            cur.time_key() <= d.time_key(),
            cur.hour == base_end.hour,
            cur.minute == base_end.minute,
            cur.second == base_end.second,
            cur.valid(),
            civil_key(
                iter_shift_civil(base_end.civil(), n as int, reps as int + 1),
                base_end.secs_of_day(),
            ) > d.time_key(),
        decreases d.time_key() - cur.time_key(),
    {
        proof {
            assert(iter_shift_civil(base_end.civil(), n as int, reps as int + 1) == shift_civil(
                iter_shift_civil(base_end.civil(), n as int, reps as int),
                n as int,
            ));
        }
        match cur.checked_shift_months(n) {
            Some(next) => {
                if next.le(d) {
                    proof {
                        lemma_shift_months_increases(cur, next, n as int);
                        // Bound the count: the month index grows by n >= 1
                        // each shift and stays below 120000.
                        lemma_iter_shift_civil_props(base_end.civil(), n as int, reps as int + 1);
                        lemma_mul_inequality(1, n as int, reps as int + 1);
                        assert(1 * (reps as int + 1) == reps as int + 1) by (nonlinear_arith);
                        assert((reps as int + 1) * n == n as int * (reps as int + 1))
                            by (nonlinear_arith);
                    }
                    cur = next;
                    reps = reps + 1;
                } else {
                    break ;
                }
            },
            None => {
                proof {
                    // The next shift leaves year 9999 behind, so its key
                    // lies past every valid timestamp, `d` included.
                    let c1 = iter_shift_civil(base_end.civil(), n as int, reps as int + 1);
                    lemma_shift_civil_props(cur.civil(), n as int);
                    lemma_civil_index_at_least_year(c1);
                    lemma_days_before_year_mono(10000, c1.year);
                    lemma_day_index_in_range(*d);
                }
                break ;
            },
        }
    }
    reps
}

/// The base end stepped forward by `n` days, available whenever the caller
/// shows the result stays within year 9999.
fn derive_end_fixed(base_end: &DateTime, n: i64) -> (r: DateTime)
    requires
        base_end.valid(),
        0 <= n <= 0x4000_0000_0000,
        base_end.day_index() + n < days_before_year(10000),
    ensures
        r.valid(),
        r.day_index() == base_end.day_index() + n,
        r.secs_of_day() == base_end.secs_of_day(),
{
    base_end.add_days(n)
}

/// The base end shifted forward `reps` times by `n` months each,
/// available whenever the caller shows the final year stays within 9999.
fn derive_end_shift(base_end: &DateTime, n: i64, reps: i64) -> (r: DateTime)
    requires
        base_end.valid(),
        1 <= n <= 0x10_0000,
        0 <= reps <= 0x1_0000_0000,
        iter_shift_civil(base_end.civil(), n as int, reps as int).year <= 9999,
    ensures
        r.valid(),
        r.civil() == iter_shift_civil(base_end.civil(), n as int, reps as int),
        r.secs_of_day() == base_end.secs_of_day(),
        r.hour == base_end.hour,
        r.minute == base_end.minute,
        r.second == base_end.second,
{
    let mut k: i64 = 0;
    let mut cur: DateTime = *base_end;
    while k < reps
        invariant
            base_end.valid(),
            cur.valid(),
            1 <= n <= 0x10_0000,
            0 <= k <= reps <= 0x1_0000_0000,
            cur.civil() == iter_shift_civil(base_end.civil(), n as int, k as int),
            cur.hour == base_end.hour,
            cur.minute == base_end.minute,
            cur.second == base_end.second,
            iter_shift_civil(base_end.civil(), n as int, reps as int).year <= 9999,
        decreases reps - k,
    {
        proof {
            assert(iter_shift_civil(base_end.civil(), n as int, k as int + 1) == shift_civil(
                iter_shift_civil(base_end.civil(), n as int, k as int),
                n as int,
            ));
            lemma_iter_shift_year_mono(base_end.civil(), n as int, k as int + 1, reps as int);
        }
        cur = cur.shift_months(n);
        k = k + 1;
    }
    cur
}

/// Resolves a repeating configuration into a fully specified rule, filling
/// the unspecified fields by the policy of `resolution_ok`.
pub fn resolve(config: &EventConfiguration) -> (r: ResolvedRule)
    requires
        config.times_valid(),
        !config.malformed(),
        !(config is Individual),
        config.in_range(),
    ensures
        r.wf(),
        r.rtype == config.rec_type(),
        r.start_time == config.base_start(),
        r.end_time == config.base_end(),
        r.days_of_week@ == config.spec_days(),
        resolution_ok(*config, r.step as int, r.repetitions as int, r.end_date),
{
    match config {
        EventConfiguration::Daily { start_time, end_time, step, repetitions, end_date } => {
            let st: i16 = match step {
                Some(s) => *s,
                None => 1,
            };
            let empty_days: Vec<Weekday> = Vec::new();
            proof {
                assert(empty_days@ =~= Seq::<Weekday>::empty());
            }
            match end_date {
                Some(d) => {
                    let reps: i64 = derive_reps_fixed(end_time, d, st as i64 * 86400);
                    ResolvedRule {
                        rtype: RecurrenceType::Daily,
                        start_time: *start_time,
                        end_time: *end_time,
                        step: st,
                        repetitions: reps,
                        end_date: *d,
                        days_of_week: empty_days,
                    }
                },
                None => {
                    let reps: i64 = match repetitions {
                        Some(n) => *n as i64,
                        None => 730,
                    };
                    proof {
                        assert(0 <= reps * (st as i64) <= 0x7fff * 0x7fff) by (nonlinear_arith)
                            requires
                                0 <= reps <= 0x7fff,
                                1 <= st as i64 <= 0x7fff,
                        ;
                        lemma_day_index_in_range(*end_time);
                    }
                    let ed: DateTime = derive_end_fixed(end_time, reps * st as i64);
                    ResolvedRule {
                        rtype: RecurrenceType::Daily,
                        start_time: *start_time,
                        end_time: *end_time,
                        step: st,
                        repetitions: reps,
                        end_date: ed,
                        days_of_week: empty_days,
                    }
                },
            }
        },
        EventConfiguration::Weekly {
            start_time,
            end_time,
            step,
            repetitions,
            end_date,
            days_of_week,
        } => {
            let st: i16 = match step {
                Some(s) => *s,
                None => 1,
            };
            let days: Vec<Weekday> = copy_days(days_of_week);
            match end_date {
                Some(d) => {
                    let reps: i64 = derive_reps_fixed(end_time, d, st as i64 * 7 * 86400);
                    proof {
                        assert(st as i64 * 7 * 86400 == (st as int * 7) * 86400);
                    }
                    ResolvedRule {
                        rtype: RecurrenceType::Weekly,
                        start_time: *start_time,
                        end_time: *end_time,
                        step: st,
                        repetitions: reps,
                        end_date: *d,
                        days_of_week: days,
                    }
                },
                None => {
                    let reps: i64 = match repetitions {
                        Some(n) => *n as i64,
                        None => 156,
                    };
                    proof {
                        assert(0 <= reps * (st as i64 * 7) <= 0x7fff_ffff * (0x7fff * 7))
                            by (nonlinear_arith)
                            requires
                                0 <= reps <= 0x7fff_ffff,
                                1 <= st as i64 <= 0x7fff,
                        ;
                        lemma_day_index_in_range(*end_time);
                        lemma_days_before_year_bounds(10000);
                    }
                    let ed: DateTime = derive_end_fixed(end_time, reps * (st as i64 * 7));
                    ResolvedRule {
                        rtype: RecurrenceType::Weekly,
                        start_time: *start_time,
                        end_time: *end_time,
                        step: st,
                        repetitions: reps,
                        end_date: ed,
                        days_of_week: days,
                    }
                },
            }
        },
        EventConfiguration::Monthly { start_time, end_time, step, repetitions, end_date } => {
            let st: i16 = match step {
                Some(s) => *s,
                None => 1,
            };
            let empty_days: Vec<Weekday> = Vec::new();
            proof {
                assert(empty_days@ =~= Seq::<Weekday>::empty());
            }
            match end_date {
                Some(d) => {
                    let reps: i64 = derive_reps_shift(end_time, d, st as i64);
                    ResolvedRule {
                        rtype: RecurrenceType::Monthly,
                        start_time: *start_time,
                        end_time: *end_time,
                        step: st,
                        repetitions: reps,
                        end_date: *d,
                        days_of_week: empty_days,
                    }
                },
                None => {
                    let reps: i64 = match repetitions {
                        Some(n) => *n as i64,
                        None => 60,
                    };
                    let ed: DateTime = derive_end_shift(end_time, st as i64, reps);
                    ResolvedRule {
                        rtype: RecurrenceType::Monthly,
                        start_time: *start_time,
                        end_time: *end_time,
                        step: st,
                        repetitions: reps,
                        end_date: ed,
                        days_of_week: empty_days,
                    }
                },
            }
        },
        EventConfiguration::Yearly { start_time, end_time, step, repetitions, end_date } => {
            let st: i16 = match step {
                Some(s) => *s,
                None => 1,
            };
            let empty_days: Vec<Weekday> = Vec::new();
            proof {
                assert(empty_days@ =~= Seq::<Weekday>::empty());
            }
            match end_date {
                Some(d) => {
                    let reps: i64 = derive_reps_shift(end_time, d, 12 * st as i64);
                    ResolvedRule {
                        rtype: RecurrenceType::Yearly,
                        start_time: *start_time,
                        end_time: *end_time,
                        step: st,
                        repetitions: reps,
                        end_date: *d,
                        days_of_week: empty_days,
                    }
                },
                None => {
                    let reps: i64 = match repetitions {
                        Some(n) => *n as i64,
                        None => 10,
                    };
                    let ed: DateTime = derive_end_shift(end_time, 12 * st as i64, reps);
                    ResolvedRule {
                        rtype: RecurrenceType::Yearly,
                        start_time: *start_time,
                        end_time: *end_time,
                        step: st,
                        repetitions: reps,
                        end_date: ed,
                        days_of_week: empty_days,
                    }
                },
            }
        },
        EventConfiguration::Individual { start_time, end_time } => {
            // Unreachable: the precondition excludes individual
            // configurations, which have nothing to resolve.
            proof {
                assert(false);
            }
            ResolvedRule {
                rtype: RecurrenceType::Daily,
                start_time: *start_time,
                end_time: *end_time,
                step: 1,
                repetitions: 0,
                end_date: *end_time,
                days_of_week: Vec::new(),
            }
        },
    }
}

} // verus!
