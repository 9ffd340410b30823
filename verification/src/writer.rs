//! The transactional event writer: turns a creation request into a write
//! plan (validation, rule resolution, occurrence generation), and applies
//! such a plan to a store model as one all-or-nothing unit.

use crate::generate::{
    fixed_step_occurrences_ok, generate_occurrences, month_step_occurrences_ok,
    occurrences_ordered, weekly_occurrences_ok, TimeRange,
};
use crate::rule::{resolve, resolution_ok, EventConfiguration, RecurrenceType, ResolvedRule};
use crate::time::{DateTime, Weekday};
use vstd::prelude::*;

verus! {

/// Why a request was rejected or a write failed.
#[derive(Clone, Copy, Debug, PartialEq, Eq, Structural)]
pub enum EventError {
    /// A supplied rule field is missing or out of range.
    MalformedRule,
    /// The base range ends at or before it starts.
    InvalidTimeRange,
    /// The store could not be reached or the transaction failed.
    StorageUnavailable,
    /// A uniqueness or reference constraint was violated.
    ConstraintViolation,
    /// The addressed row does not exist.
    NotFound,
}

impl EventError {
    /// A human-readable description of the error.
    pub fn message(&self) -> String {
        match self {
            EventError::MalformedRule => "Malformed recurrence rule.".to_string(),
            EventError::InvalidTimeRange => "End time must lie after start time.".to_string(),
            EventError::StorageUnavailable => "Storage unavailable.".to_string(),
            EventError::ConstraintViolation => "Constraint violation.".to_string(),
            EventError::NotFound => "Not found.".to_string(),
        }
    }
}

/// An inbound event-creation request.
pub struct CreateEventRequest {
    pub name: String,
    pub description: String,
    pub private: Option<bool>,
    pub user_id: i64,
    pub super_event_id: Option<i64>,
    pub tags: Option<Vec<i64>>,
    pub configuration: Option<EventConfiguration>,
}

/// A request to attach a user to an existing event.
#[derive(Clone, Copy, Debug)]
pub struct AddUserToEventRequest {
    pub confirmation: Option<bool>,
    pub owner: Option<bool>,
}

/// A request to comment on an event.
#[derive(Clone, Debug)]
pub struct AddCommentToEventRequest {
    pub user_id: i64,
    pub title: String,
    pub content: String,
}

/// A request to rewrite a comment.
#[derive(Clone, Debug)]
pub struct UpdateCommentRequest {
    pub title: String,
    pub content: String,
}

/// The recurrence row of a repeating event, before an identifier is
/// assigned.
#[derive(Clone, Debug, PartialEq, Eq)]
pub struct RecurrenceRow {
    pub rtype: RecurrenceType,
    pub step: i16,
    pub repetitions: i64,
    pub end_date: DateTime,
}

/// Everything one event creation writes, computed up front: the event's
/// own attributes, the owner membership, tag links, the resolved
/// recurrence with its weekday filter, and every occurrence.
#[derive(Debug, PartialEq, Eq)]
pub struct EventWritePlan {
    pub event_name: String,
    pub event_description: String,
    pub event_private: bool,
    pub super_event_id: Option<i64>,
    pub owner_user_id: i64,
    pub tags: Vec<i64>,
    pub recurrence: Option<RecurrenceRow>,
    pub week_days: Vec<Weekday>,
    pub occurrences: Vec<TimeRange>,
}

/// The tag links the request asks for: the given list, or none.
pub open spec fn requested_tags(req: CreateEventRequest) -> Seq<i64> {
    match req.tags {
        Some(t) => t@,
        None => Seq::<i64>::empty(),
    }
}

/// The weekday filter the request asks for: the weekly configuration's
/// days, or none.
pub open spec fn requested_days(req: CreateEventRequest) -> Seq<Weekday> {
    match req.configuration {
        Some(c) => c.spec_days(),
        None => Seq::<Weekday>::empty(),
    }
}

/// What a correct plan for `req` holds: the event attributes copied with
/// the privacy default applied, the owner, the flattened tag list, and —
/// per configuration — no recurrence and no occurrences, the single
/// occurrence of an individual event, or the resolved rule with exactly
/// the occurrence sequence its kind implies.
pub open spec fn event_plan_ok(req: CreateEventRequest, plan: EventWritePlan) -> bool {
    &&& plan.event_name == req.name
    &&& plan.event_description == req.description
    &&& plan.event_private == (match req.private {
        Some(b) => b,
        None => false,
    })
    &&& plan.super_event_id == req.super_event_id
    &&& plan.owner_user_id == req.user_id
    &&& plan.tags@ == requested_tags(req)
    &&& occurrences_ordered(plan.occurrences@)
    &&& plan.occurrences@.len() <= 0x400000
    &&& match req.configuration {
        None => {
            &&& plan.recurrence is None
            &&& plan.week_days@.len() == 0
            &&& plan.occurrences@.len() == 0
        },
        Some(c) => match c {
            EventConfiguration::Individual { start_time, end_time } => {
                &&& plan.recurrence is None
                &&& plan.week_days@.len() == 0
                &&& plan.occurrences@ == seq![TimeRange { start: start_time, end: end_time }]
            },
            _ => {
                &&& plan.week_days@ == c.spec_days()
                &&& plan.recurrence matches Some(rec) && {
                    &&& rec.rtype == c.rec_type()
                    &&& rec.step >= 1
                    &&& rec.repetitions >= 0
                    &&& rec.end_date.valid()
                    &&& resolution_ok(c, rec.step as int, rec.repetitions as int, rec.end_date)
                    &&& (rec.rtype is Daily ==> fixed_step_occurrences_ok(
                        plan.occurrences@,
                        c.base_start(),
                        c.base_end(),
                        rec.step as int,
                        rec.end_date,
                    ))
                    &&& (rec.rtype is Weekly ==> weekly_occurrences_ok(
                        plan.occurrences@,
                        c.base_start(),
                        c.base_end(),
                        c.spec_days(),
                        rec.end_date,
                    ))
                    &&& (rec.rtype is Monthly ==> month_step_occurrences_ok(
                        plan.occurrences@,
                        c.base_start(),
                        c.base_end(),
                        rec.step as int,
                        rec.end_date,
                    ))
                    &&& (rec.rtype is Yearly ==> month_step_occurrences_ok(
                        plan.occurrences@,
                        c.base_start(),
                        c.base_end(),
                        12 * rec.step as int,
                        rec.end_date,
                    ))
                }
            },
        },
    }
}

/// Does the configuration carry a supplied field that is out of range?
fn config_malformed(c: &EventConfiguration) -> (r: bool)
    ensures
        r == c.malformed(),
{
    match c {
        EventConfiguration::Daily { step, repetitions, .. } => {
            (match step {
                Some(s) => *s <= 0,
                None => false,
            }) || (match repetitions {
                Some(n) => *n < 0,
                None => false,
            })
        },
        EventConfiguration::Weekly { step, repetitions, days_of_week, .. } => {
            (match step {
                Some(s) => *s <= 0,
                None => false,
            }) || (match repetitions {
                Some(n) => *n < 0,
                None => false,
            }) || days_of_week.len() == 0
        },
        EventConfiguration::Monthly { step, repetitions, .. } => {
            (match step {
                Some(s) => *s <= 0,
                None => false,
            }) || (match repetitions {
                Some(n) => *n < 0,
                None => false,
            })
        },
        EventConfiguration::Yearly { step, repetitions, .. } => {
            (match step {
                Some(s) => *s <= 0,
                None => false,
            }) || (match repetitions {
                Some(n) => *n < 0,
                None => false,
            })
        },
        EventConfiguration::Individual { .. } => false,
    }
}

/// Validates a creation request and computes everything it would write.
///
/// A malformed rule is rejected first, then a base range that ends at or
/// before its start; both without touching any store. On success the plan
/// holds exactly what `event_plan_ok` describes.
pub fn plan_event(req: CreateEventRequest) -> (r: Result<EventWritePlan, EventError>)
    requires
        req.configuration matches Some(c) ==> c.times_valid() && c.in_range(),
    ensures
        r is Err <==> (req.configuration matches Some(c) && (c.malformed()
            || c.base_end().time_key() <= c.base_start().time_key())),
        (req.configuration matches Some(c) && c.malformed()) ==> r == Err::<
            EventWritePlan,
            EventError,
        >(EventError::MalformedRule),
        (req.configuration matches Some(c) && !c.malformed() && c.base_end().time_key()
            <= c.base_start().time_key()) ==> r == Err::<EventWritePlan, EventError>(
            EventError::InvalidTimeRange,
        ),
        r matches Ok(plan) ==> event_plan_ok(req, plan),
{
    let CreateEventRequest { name, description, private, user_id, super_event_id, tags, configuration } = req;
    let tag_list: Vec<i64> = match tags {
        Some(t) => t,
        None => Vec::new(),
    };
    let event_private: bool = match private {
        Some(b) => b,
        None => false,
    };
    let no_days: Vec<Weekday> = Vec::new();
    proof {
        assert(no_days@ =~= Seq::<Weekday>::empty());
        assert(tag_list@ == (match req.tags {
            Some(t) => t@,
            None => Seq::<i64>::empty(),
        }));
    }
    match configuration {
        None => Ok(
            EventWritePlan {
                event_name: name,
                event_description: description,
                event_private,
                super_event_id,
                owner_user_id: user_id,
                tags: tag_list,
                recurrence: None,
                week_days: no_days,
                occurrences: Vec::new(),
            },
        ),
        Some(config) => {
            if config_malformed(&config) {
                return Err(EventError::MalformedRule);
            }
            let bs: DateTime = match &config {
                EventConfiguration::Daily { start_time, .. } => *start_time,
                EventConfiguration::Weekly { start_time, .. } => *start_time,
                EventConfiguration::Monthly { start_time, .. } => *start_time,
                EventConfiguration::Yearly { start_time, .. } => *start_time,
                EventConfiguration::Individual { start_time, .. } => *start_time,
            };
            let be: DateTime = match &config {
                EventConfiguration::Daily { end_time, .. } => *end_time,
                EventConfiguration::Weekly { end_time, .. } => *end_time,
                EventConfiguration::Monthly { end_time, .. } => *end_time,
                EventConfiguration::Yearly { end_time, .. } => *end_time,
                EventConfiguration::Individual { end_time, .. } => *end_time,
            };
            if !bs.lt(&be) {
                return Err(EventError::InvalidTimeRange);
            }
            match config {
                EventConfiguration::Individual { start_time, end_time } => {
                    let mut occ: Vec<TimeRange> = Vec::new();
                    occ.push(TimeRange { start: start_time, end: end_time });
                    proof {
                        assert(occ@ =~= seq![TimeRange { start: start_time, end: end_time }]);
                    }
                    Ok(
                        EventWritePlan {
                            event_name: name,
                            event_description: description,
                            event_private,
                            super_event_id,
                            owner_user_id: user_id,
                            tags: tag_list,
                            recurrence: None,
                            week_days: no_days,
                            occurrences: occ,
                        },
                    )
                },
                _ => {
                    let rule: ResolvedRule = resolve(&config);
                    let occ: Vec<TimeRange> = generate_occurrences(&rule);
                    let ResolvedRule { rtype, start_time: _, end_time: _, step, repetitions, end_date, days_of_week } = rule;
                    Ok(
                        EventWritePlan {
                            event_name: name,
                            event_description: description,
                            event_private,
                            super_event_id,
                            owner_user_id: user_id,
                            tags: tag_list,
                            recurrence: Some(
                                RecurrenceRow { rtype, step, repetitions, end_date },
                            ),
                            week_days: days_of_week,
                            occurrences: occ,
                        },
                    )
                },
            }
        },
    }
}

/// A stored event row.
#[derive(Clone, Debug, PartialEq, Eq)]
pub struct EventRecord {
    pub id: i64,
    pub name: String,
    pub description: String,
    pub private: bool,
    pub super_event_id: Option<i64>,
}

/// A stored membership row, linking a user to an event.
#[derive(Clone, Copy, Debug, PartialEq, Eq)]
pub struct MembershipRow {
    pub user_id: i64,
    pub event_id: i64,
    pub confirmation: bool,
    pub owner: bool,
}

/// A stored event-tag link.
#[derive(Clone, Copy, Debug, PartialEq, Eq)]
pub struct TagLinkRow {
    pub event_id: i64,
    pub tag_id: i64,
}

/// A stored recurrence row.
#[derive(Clone, Copy, Debug, PartialEq, Eq)]
pub struct RecurrenceRecord {
    pub id: i64,
    pub rtype: RecurrenceType,
    pub step: i16,
    pub repetitions: i64,
    pub end_date: DateTime,
}

/// A stored weekday-association row of a weekly recurrence.
#[derive(Clone, Copy, Debug, PartialEq, Eq)]
pub struct WeekdayLinkRow {
    pub recurrence_id: i64,
    pub week_day: Weekday,
}

/// A stored occurrence row.
#[derive(Clone, Copy, Debug, PartialEq, Eq)]
pub struct Schedule {
    pub id: i64,
    pub recurrence_id: Option<i64>,
    pub event_id: i64,
    pub start_time: DateTime,
    pub end_time: DateTime,
}

/// An in-memory model of the event store: the tables one event creation
/// writes, plus the identifier counters.
#[derive(Clone, Debug, PartialEq, Eq)]
pub struct Database {
    pub events: Vec<EventRecord>,
    pub memberships: Vec<MembershipRow>,
    pub event_tags: Vec<TagLinkRow>,
    pub recurrences: Vec<RecurrenceRecord>,
    pub recurrence_week_days: Vec<WeekdayLinkRow>,
    pub schedules: Vec<Schedule>,
    pub next_event_id: i64,
    pub next_recurrence_id: i64,
    pub next_schedule_id: i64,
}

/// One step of the writer protocol, in its fixed order.
#[derive(Clone, Copy, Debug, PartialEq, Eq, Structural)]
pub enum WriteStep {
    InsertEvent,
    InsertMembership,
    InsertTags,
    InsertRecurrence,
    InsertWeekDays,
    InsertSchedules,
    Commit,
}

/// Does the protocol run the given step for this plan? A step with
/// nothing to write is skipped, so it cannot fail either.
pub open spec fn step_executed(plan: EventWritePlan, s: WriteStep) -> bool {
    match s {
        WriteStep::InsertEvent => true,
        WriteStep::InsertMembership => true,
        WriteStep::InsertTags => plan.tags@.len() > 0,
        WriteStep::InsertRecurrence => plan.recurrence is Some,
        WriteStep::InsertWeekDays => plan.week_days@.len() > 0,
        WriteStep::InsertSchedules => plan.occurrences@.len() > 0,
        WriteStep::Commit => true,
    }
}

/// The tag-link rows one creation writes.
pub open spec fn tag_links_of(event_id: i64, tags: Seq<i64>) -> Seq<TagLinkRow> {
    tags.map_values(|t: i64| TagLinkRow { event_id, tag_id: t })
}

/// The weekday-association rows one creation writes.
pub open spec fn week_day_links_of(recurrence_id: i64, days: Seq<Weekday>) -> Seq<WeekdayLinkRow> {
    days.map_values(|d: Weekday| WeekdayLinkRow { recurrence_id, week_day: d })
}

/// The occurrence rows one creation writes, with consecutive identifiers
/// from `first_id`.
pub open spec fn schedule_rows_of(
    first_id: i64,
    event_id: i64,
    recurrence_id: Option<i64>,
    occ: Seq<TimeRange>,
) -> Seq<Schedule> {
    Seq::new(
        occ.len(),
        |i: int|
            Schedule {
                id: (first_id + i) as i64,
                recurrence_id,
                event_id,
                start_time: occ[i].start,
                end_time: occ[i].end,
            },
    )
}

/// What one committed creation does to the store: the event row with the
/// next event id, the owner membership, the tag links, the recurrence row
/// with its weekday associations (when the plan has one), the occurrence
/// rows with consecutive ids, and the advanced id counters; every other
/// row untouched.
pub open spec fn plan_applied(pre: Database, post: Database, plan: EventWritePlan) -> bool {
    let eid = pre.next_event_id;
    &&& post.events@ == pre.events@.push(
        (EventRecord {
            id: eid,
            name: plan.event_name,
            description: plan.event_description,
            private: plan.event_private,
            super_event_id: plan.super_event_id,
        }),
    )
    &&& post.memberships@ == pre.memberships@.push(
        (MembershipRow {
            user_id: plan.owner_user_id,
            event_id: eid,
            confirmation: true,
            owner: true,
        }),
    )
    &&& post.event_tags@ == pre.event_tags@ + tag_links_of(eid, plan.tags@)
    &&& match plan.recurrence {
        Some(rec) => {
            let rid = pre.next_recurrence_id;
            &&& post.recurrences@ == pre.recurrences@.push(
                (RecurrenceRecord {
                    id: rid,
                    rtype: rec.rtype,
                    step: rec.step,
                    repetitions: rec.repetitions,
                    end_date: rec.end_date,
                }),
            )
            &&& post.recurrence_week_days@ == pre.recurrence_week_days@ + week_day_links_of(
                rid,
                plan.week_days@,
            )
            &&& post.schedules@ == pre.schedules@ + schedule_rows_of(
                pre.next_schedule_id,
                eid,
                Some(rid),
                plan.occurrences@,
            )
            &&& post.next_recurrence_id == rid + 1
        },
        None => {
            &&& post.recurrences@ == pre.recurrences@
            &&& post.recurrence_week_days@ == pre.recurrence_week_days@
            &&& post.schedules@ == pre.schedules@ + schedule_rows_of(
                pre.next_schedule_id,
                eid,
                None,
                plan.occurrences@,
            )
            &&& post.next_recurrence_id == pre.next_recurrence_id
        },
    }
    &&& post.next_event_id == eid + 1
    &&& post.next_schedule_id == pre.next_schedule_id + plan.occurrences@.len()
}

/// Does the sequence hold the same value twice?
pub open spec fn has_duplicate<T>(s: Seq<T>) -> bool {
    exists|i: int, j: int| #![trigger s[i], s[j]] 0 <= i < j < s.len() && s[i] == s[j]
}

/// The first failure the writer protocol runs into for this plan, in step
/// order: the injected failure at its step, or a uniqueness violation
/// where a bulk insert would pair the same event and tag, or the same
/// recurrence and weekday, twice. `None` when every step succeeds.
pub open spec fn write_failure(plan: EventWritePlan, fail_at: Option<WriteStep>) -> Option<
    EventError,
> {
    let injected = |s: WriteStep| fail_at matches Some(f) && f == s;
    if injected(WriteStep::InsertEvent) {
        Some(EventError::StorageUnavailable)
    } else if injected(WriteStep::InsertMembership) {
        Some(EventError::StorageUnavailable)
    } else if plan.tags@.len() > 0 && injected(WriteStep::InsertTags) {
        Some(EventError::StorageUnavailable)
    } else if has_duplicate(plan.tags@) {
        Some(EventError::ConstraintViolation)
    } else if plan.recurrence is Some && injected(WriteStep::InsertRecurrence) {
        Some(EventError::StorageUnavailable)
    } else if plan.week_days@.len() > 0 && injected(WriteStep::InsertWeekDays) {
        Some(EventError::StorageUnavailable)
    } else if has_duplicate(plan.week_days@) {
        Some(EventError::ConstraintViolation)
    } else if plan.occurrences@.len() > 0 && injected(WriteStep::InsertSchedules) {
        Some(EventError::StorageUnavailable)
    } else if injected(WriteStep::Commit) {
        Some(EventError::StorageUnavailable)
    } else {
        None
    }
}

impl Database {
    /// Well-formedness: every identifier already handed out lies below
    /// its counter, and occurrence rows reference events that exist
    /// below the event counter.
    pub open spec fn wf(self) -> bool {
        &&& 1 <= self.next_event_id
        &&& 1 <= self.next_recurrence_id
        &&& 1 <= self.next_schedule_id
        &&& forall|i: int|
            0 <= i < self.events@.len() ==> (#[trigger] self.events@[i]).id < self.next_event_id
        &&& forall|i: int|
            0 <= i < self.recurrences@.len() ==> (#[trigger] self.recurrences@[i]).id
                < self.next_recurrence_id
        &&& forall|i: int|
            0 <= i < self.schedules@.len() ==> (#[trigger] self.schedules@[i]).id
                < self.next_schedule_id && self.schedules@[i].event_id < self.next_event_id
    }
}

/// Is `s` the injected failing step?
fn fails_here(fail_at: &Option<WriteStep>, s: WriteStep) -> (r: bool)
    ensures
        r == (*fail_at matches Some(f) && f == s),
{
    match fail_at {
        Some(f) => *f == s,
        None => false,
    }
}

/// Does the tag list name some tag twice?
fn has_duplicate_tags(v: &Vec<i64>) -> (r: bool)
    ensures
        r == has_duplicate(v@),
{
    let mut i: usize = 0;
    while i < v.len()
        invariant
            i <= v.len(),
            forall|a: int, b: int|
                #![trigger v@[a], v@[b]]
                0 <= a < b < v@.len() && a < i ==> v@[a] != v@[b],
        decreases v.len() - i,
    {
        let mut j: usize = i + 1;
        while j < v.len()
            invariant
                i < v.len(),
                i + 1 <= j <= v.len(),
                forall|b: int| i < b < j ==> v@[i as int] != #[trigger] v@[b],
                forall|a: int, b: int|
                    #![trigger v@[a], v@[b]]
                    0 <= a < b < v@.len() && a < i ==> v@[a] != v@[b],
            decreases v.len() - j,
        {
            if v[i] == v[j] {
                proof {
                    assert(v@[i as int] == v@[j as int]);
                }
                return true;
            }
            j = j + 1;
        }
        i = i + 1;
    }
    proof {
        assert(!has_duplicate(v@)) by {
            if has_duplicate(v@) {
                let (a, b) = choose|a: int, b: int|
                    #![trigger v@[a], v@[b]]
                    0 <= a < b < v@.len() && v@[a] == v@[b];
                assert(v@[a] != v@[b]);
            }
        }
    }
    false
}

/// Does the weekday list name some day twice?
fn has_duplicate_days(v: &Vec<Weekday>) -> (r: bool)
    ensures
        r == has_duplicate(v@),
{
    let mut i: usize = 0;
    while i < v.len()
        invariant
            i <= v.len(),
            forall|a: int, b: int|
                #![trigger v@[a], v@[b]]
                0 <= a < b < v@.len() && a < i ==> v@[a] != v@[b],
        decreases v.len() - i,
    {
        let mut j: usize = i + 1;
        while j < v.len()
            invariant
                i < v.len(),
                i + 1 <= j <= v.len(),
                forall|b: int| i < b < j ==> v@[i as int] != #[trigger] v@[b],
                forall|a: int, b: int|
                    #![trigger v@[a], v@[b]]
                    0 <= a < b < v@.len() && a < i ==> v@[a] != v@[b],
            decreases v.len() - j,
        {
            if v[i] == v[j] {
                proof {
                    assert(v@[i as int] == v@[j as int]);
                }
                return true;
            }
            j = j + 1;
        }
        i = i + 1;
    }
    proof {
        assert(!has_duplicate(v@)) by {
            if has_duplicate(v@) {
                let (a, b) = choose|a: int, b: int|
                    #![trigger v@[a], v@[b]]
                    0 <= a < b < v@.len() && v@[a] == v@[b];
                assert(v@[a] != v@[b]);
            }
        }
    }
    false
}

/// Builds the tag-link rows of one creation.
fn build_tag_links(event_id: i64, tags: &Vec<i64>) -> (r: Vec<TagLinkRow>)
    ensures
        r@ == tag_links_of(event_id, tags@),
{
    let mut r: Vec<TagLinkRow> = Vec::new();
    let mut i: usize = 0;
    while i < tags.len()
        invariant
            i <= tags.len(),
            r@.len() == i,
            forall|j: int|
                0 <= j < i ==> r@[j] == (TagLinkRow { event_id, tag_id: tags@[j] }),
        decreases tags.len() - i,
    {
        r.push(TagLinkRow { event_id, tag_id: tags[i] });
        i = i + 1;
    }
    proof {
        assert(r@ =~= tag_links_of(event_id, tags@));
    }
    r
}

/// Builds the weekday-association rows of one creation.
fn build_week_day_links(recurrence_id: i64, days: &Vec<Weekday>) -> (r: Vec<WeekdayLinkRow>)
    ensures
        r@ == week_day_links_of(recurrence_id, days@),
{
    let mut r: Vec<WeekdayLinkRow> = Vec::new();
    let mut i: usize = 0;
    while i < days.len()
        invariant
            i <= days.len(),
            r@.len() == i,
            forall|j: int|
                0 <= j < i ==> r@[j] == (WeekdayLinkRow { recurrence_id, week_day: days@[j] }),
        decreases days.len() - i,
    {
        r.push(WeekdayLinkRow { recurrence_id, week_day: days[i] });
        i = i + 1;
    }
    proof {
        assert(r@ =~= week_day_links_of(recurrence_id, days@));
    }
    r
}

/// Builds the occurrence rows of one creation.
fn build_schedule_rows(
    first_id: i64,
    event_id: i64,
    recurrence_id: Option<i64>,
    occ: &Vec<TimeRange>,
) -> (r: Vec<Schedule>)
    requires
        0 <= first_id,
        first_id + occ@.len() < i64::MAX,
    ensures
        r@ == schedule_rows_of(first_id, event_id, recurrence_id, occ@),
{
    let mut r: Vec<Schedule> = Vec::new();
    let mut i: usize = 0;
    while i < occ.len()
        invariant
            i <= occ.len(),
            0 <= first_id,
            first_id + occ@.len() < i64::MAX,
            r@.len() == i,
            forall|j: int|
                0 <= j < i ==> r@[j] == (Schedule {
                    id: (first_id + j) as i64,
                    recurrence_id,
                    event_id,
                    start_time: occ@[j].start,
                    end_time: occ@[j].end,
                }),
        decreases occ.len() - i,
    {
        let o: TimeRange = occ[i];
        r.push(
            Schedule {
                id: first_id + i as i64,
                recurrence_id,
                event_id,
                start_time: o.start,
                end_time: o.end,
            },
        );
        i = i + 1;
    }
    proof {
        assert(r@ =~= schedule_rows_of(first_id, event_id, recurrence_id, occ@));
    }
    r
}

impl Database {
    /// An empty store.
    pub fn new() -> (r: Database)
        ensures
            r.events@.len() == 0,
            r.memberships@.len() == 0,
            r.event_tags@.len() == 0,
            r.recurrences@.len() == 0,
            r.recurrence_week_days@.len() == 0,
            r.schedules@.len() == 0,
            r.next_event_id == 1,
            r.next_recurrence_id == 1,
            r.next_schedule_id == 1,
            r.wf(),
    {
        Database {
            events: Vec::new(),
            memberships: Vec::new(),
            event_tags: Vec::new(),
            recurrences: Vec::new(),
            recurrence_week_days: Vec::new(),
            schedules: Vec::new(),
            next_event_id: 1,
            next_recurrence_id: 1,
            next_schedule_id: 1,
        }
    }

    /// Applies one event-creation plan as a single transaction: when no
    /// step fails, every row of the plan lands and the new event id is
    /// returned; when any step fails, the store is left exactly as it
    /// was. `fail_at` injects a failure at the named step, standing for
    /// the errors a real store can raise; a step with nothing to write is
    /// skipped and cannot fail.
    pub fn apply_event_plan(
        &mut self,
        plan: &EventWritePlan,
        fail_at: Option<WriteStep>,
    ) -> (r: Result<i64, EventError>)
        requires
            0 <= old(self).next_event_id < i64::MAX,
            0 <= old(self).next_recurrence_id < i64::MAX,
            0 <= old(self).next_schedule_id,
            old(self).next_schedule_id + plan.occurrences@.len() < i64::MAX,
            plan.week_days@.len() > 0 ==> plan.recurrence is Some,
        ensures
            write_failure(*plan, fail_at) matches Some(e) ==> r == Err::<i64, EventError>(e)
                && *final(self) == *old(self),
            write_failure(*plan, fail_at) is None ==> r == Ok::<i64, EventError>(
                old(self).next_event_id,
            ) && plan_applied(*old(self), *final(self), *plan),
    {
        if fails_here(&fail_at, WriteStep::InsertEvent) {
            return Err(EventError::StorageUnavailable);
        }
        if fails_here(&fail_at, WriteStep::InsertMembership) {
            return Err(EventError::StorageUnavailable);
        }
        if plan.tags.len() > 0 && fails_here(&fail_at, WriteStep::InsertTags) {
            return Err(EventError::StorageUnavailable);
        }
        if has_duplicate_tags(&plan.tags) {
            return Err(EventError::ConstraintViolation);
        }
        let has_rec: bool = match &plan.recurrence {
            Some(_) => true,
            None => false,
        };
        if has_rec && fails_here(&fail_at, WriteStep::InsertRecurrence) {
            return Err(EventError::StorageUnavailable);
        }
        if plan.week_days.len() > 0 && fails_here(&fail_at, WriteStep::InsertWeekDays) {
            return Err(EventError::StorageUnavailable);
        }
        if has_duplicate_days(&plan.week_days) {
            return Err(EventError::ConstraintViolation);
        }
        if plan.occurrences.len() > 0 && fails_here(&fail_at, WriteStep::InsertSchedules) {
            return Err(EventError::StorageUnavailable);
        }
        if fails_here(&fail_at, WriteStep::Commit) {
            return Err(EventError::StorageUnavailable);
        }
        // Every step will succeed: the buffered rows become visible
        // together, as one committed unit.
        let eid: i64 = self.next_event_id;
        self.events.push(
            EventRecord {
                id: eid,
                name: plan.event_name.clone(),
                description: plan.event_description.clone(),
                private: plan.event_private,
                super_event_id: plan.super_event_id,
            },
        );
        self.memberships.push(
            MembershipRow {
                user_id: plan.owner_user_id,
                event_id: eid,
                confirmation: true,
                owner: true,
            },
        );
        let mut tag_rows: Vec<TagLinkRow> = build_tag_links(eid, &plan.tags);
        self.event_tags.append(&mut tag_rows);
        let rid_opt: Option<i64> = match &plan.recurrence {
            Some(rec) => {
                let rid: i64 = self.next_recurrence_id;
                self.recurrences.push(
                    RecurrenceRecord {
                        id: rid,
                        rtype: rec.rtype,
                        step: rec.step,
                        repetitions: rec.repetitions,
                        end_date: rec.end_date,
                    },
                );
                self.next_recurrence_id = rid + 1;
                let mut day_rows: Vec<WeekdayLinkRow> = build_week_day_links(
                    rid,
                    &plan.week_days,
                );
                self.recurrence_week_days.append(&mut day_rows);
                Some(rid)
            },
            None => None,
        };
        let mut schedule_rows: Vec<Schedule> = build_schedule_rows(
            self.next_schedule_id,
            eid,
            rid_opt,
            &plan.occurrences,
        );
        self.next_schedule_id = self.next_schedule_id + plan.occurrences.len() as i64;
        self.schedules.append(&mut schedule_rows);
        self.next_event_id = eid + 1;
        Ok(eid)
    }
}

/// Is a schedule with this id present?
pub open spec fn has_schedule(s: Seq<Schedule>, id: i64) -> bool {
    exists|i: int| 0 <= i < s.len() && s[i].id == id
}

/// The schedule rows left after deleting every row with the given id,
/// in their stored order.
pub open spec fn schedules_without(s: Seq<Schedule>, id: i64) -> Seq<Schedule> {
    s.filter(|x: Schedule| x.id != id)
}

/// Is a recurrence with this id present?
pub open spec fn has_recurrence(s: Seq<RecurrenceRecord>, id: i64) -> bool {
    exists|i: int| 0 <= i < s.len() && s[i].id == id
}

/// The recurrence rows left after deleting every row with the given id,
/// in their stored order.
pub open spec fn recurrences_without(s: Seq<RecurrenceRecord>, id: i64) -> Seq<RecurrenceRecord> {
    s.filter(|x: RecurrenceRecord| x.id != id)
}

/// The schedule rows of one event, in their stored order.
pub open spec fn schedules_of_event(s: Seq<Schedule>, event_id: i64) -> Seq<Schedule> {
    s.filter(|x: Schedule| x.event_id == event_id)
}

/// Does a membership row link this user to this event?
pub open spec fn user_in_event(m: Seq<MembershipRow>, user_id: i64, event_id: i64) -> bool {
    exists|i: int|
        0 <= i < m.len() && (#[trigger] m[i]).user_id == user_id && m[i].event_id == event_id
}

/// The schedule rows of every event the user belongs to, in their stored
/// order.
pub open spec fn schedules_of_user(
    s: Seq<Schedule>,
    m: Seq<MembershipRow>,
    user_id: i64,
) -> Seq<Schedule> {
    s.filter(|x: Schedule| user_in_event(m, user_id, x.event_id))
}

impl Database {
    /// Creates an event: validates the request, resolves and expands its
    /// recurrence rule, and writes the event, the owner membership, the
    /// tag links, the recurrence with its weekday associations, and every
    /// occurrence, as one unit. A rejected request leaves the store
    /// untouched.
    pub fn create_event(&mut self, req: CreateEventRequest) -> (r: Result<i64, EventError>)
        requires
            req.configuration matches Some(c) ==> c.times_valid() && c.in_range(),
            0 <= old(self).next_event_id < i64::MAX,
            0 <= old(self).next_recurrence_id < i64::MAX,
            0 <= old(self).next_schedule_id,
            old(self).next_schedule_id + 0x400001 < i64::MAX,
        ensures
            r is Err <==> ((req.configuration matches Some(c) && (c.malformed()
                || c.base_end().time_key() <= c.base_start().time_key())) || has_duplicate(
                requested_tags(req),
            ) || has_duplicate(requested_days(req))),
            (req.configuration matches Some(c) && c.malformed()) ==> r == Err::<i64, EventError>(
                EventError::MalformedRule,
            ),
            (req.configuration matches Some(c) && !c.malformed() && c.base_end().time_key()
                <= c.base_start().time_key()) ==> r == Err::<i64, EventError>(
                EventError::InvalidTimeRange,
            ),
            (!(req.configuration matches Some(c) && (c.malformed() || c.base_end().time_key()
                <= c.base_start().time_key())) && (has_duplicate(requested_tags(req))
                || has_duplicate(requested_days(req)))) ==> r == Err::<i64, EventError>(
                EventError::ConstraintViolation,
            ),
            r is Err ==> *final(self) == *old(self),
            r matches Ok(eid) ==> eid == old(self).next_event_id && (exists|
                plan: EventWritePlan,
            |
                #[trigger] event_plan_ok(req, plan) && plan_applied(
                    *old(self),
                    *final(self),
                    plan,
                )),
            old(self).wf() ==> final(self).wf(),
    {
        let plan: EventWritePlan = match plan_event(req) {
            Ok(p) => p,
            Err(e) => {
                return Err(e);
            },
        };
        let r = self.apply_event_plan(&plan, None);
        proof {
            if r is Ok {
                assert(event_plan_ok(req, plan) && plan_applied(*old(self), *self, plan));
                if old(self).wf() {
                    lemma_plan_applied_preserves_wf(*old(self), *self, plan);
                }
            }
        }
        r
    }

    /// Deletes the schedule with the given id; `NotFound` when no such
    /// schedule exists. Nothing else changes.
    pub fn delete_schedule(&mut self, id: i64) -> (r: Result<(), EventError>)
        ensures
            final(self).schedules@ == schedules_without(old(self).schedules@, id),
            r is Ok <==> has_schedule(old(self).schedules@, id),
            r is Err ==> r == Err::<(), EventError>(EventError::NotFound),
            final(self).events@ == old(self).events@,
            final(self).memberships@ == old(self).memberships@,
            final(self).event_tags@ == old(self).event_tags@,
            final(self).recurrences@ == old(self).recurrences@,
            final(self).recurrence_week_days@ == old(self).recurrence_week_days@,
            final(self).next_event_id == old(self).next_event_id,
            final(self).next_recurrence_id == old(self).next_recurrence_id,
            final(self).next_schedule_id == old(self).next_schedule_id,
    {
        let ghost all = self.schedules@;
        let mut kept: Vec<Schedule> = Vec::new();
        let mut found: bool = false;
        let mut i: usize = 0;
        proof {
            reveal_with_fuel(Seq::<Schedule>::filter, 1);
            assert(all.subrange(0, 0) =~= Seq::<Schedule>::empty());
            assert(kept@ =~= schedules_without(all.subrange(0, 0), id));
        }
        while i < self.schedules.len()
            invariant
                i <= self.schedules.len(),
                self.schedules@ == all,
                kept@ == schedules_without(all.subrange(0, i as int), id),
                found == has_schedule(all.subrange(0, i as int), id),
                self.events@ == old(self).events@,
                self.memberships@ == old(self).memberships@,
                self.event_tags@ == old(self).event_tags@,
                self.recurrences@ == old(self).recurrences@,
                self.recurrence_week_days@ == old(self).recurrence_week_days@,
                self.next_event_id == old(self).next_event_id,
                self.next_recurrence_id == old(self).next_recurrence_id,
                self.next_schedule_id == old(self).next_schedule_id,
                self.schedules@ == old(self).schedules@,
            decreases self.schedules.len() - i,
        {
            let row: Schedule = self.schedules[i];
            proof {
                reveal_with_fuel(Seq::<Schedule>::filter, 2);
                assert(all.subrange(0, i as int + 1).drop_last() =~= all.subrange(0, i as int));
                assert(all.subrange(0, i as int + 1).last() == row);
                if row.id != id {
                    assert(schedules_without(all.subrange(0, i as int + 1), id)
                        == schedules_without(all.subrange(0, i as int), id).push(row));
                } else {
                    assert(schedules_without(all.subrange(0, i as int + 1), id)
                        == schedules_without(all.subrange(0, i as int), id));
                }
                if row.id == id {
                    assert(has_schedule(all.subrange(0, i as int + 1), id)) by {
                        assert(all.subrange(0, i as int + 1)[i as int].id == id);
                    }
                } else {
                    if has_schedule(all.subrange(0, i as int + 1), id) {
                        let j = choose|j: int|
                            0 <= j < all.subrange(0, i as int + 1).len() && (#[trigger] all.subrange(
                                0,
                                i as int + 1,
                            )[j]).id == id;
                        if j < i {
                            assert(all.subrange(0, i as int)[j].id == id);
                        }
                    }
                }
            }
            if row.id == id {
                found = true;
            } else {
                kept.push(row);
            }
            i = i + 1;
        }
        proof {
            assert(all.subrange(0, all.len() as int) =~= all);
        }
        self.schedules = kept;
        if found {
            Ok(())
        } else {
            Err(EventError::NotFound)
        }
    }

    /// Deletes the recurrence with the given id; `NotFound` when no such
    /// recurrence exists. Its schedules are left to the storage layer and
    /// stay untouched here.
    pub fn delete_recurrence(&mut self, id: i64) -> (r: Result<(), EventError>)
        ensures
            final(self).recurrences@ == recurrences_without(old(self).recurrences@, id),
            r is Ok <==> has_recurrence(old(self).recurrences@, id),
            r is Err ==> r == Err::<(), EventError>(EventError::NotFound),
            final(self).events@ == old(self).events@,
            final(self).memberships@ == old(self).memberships@,
            final(self).event_tags@ == old(self).event_tags@,
            final(self).schedules@ == old(self).schedules@,
            final(self).recurrence_week_days@ == old(self).recurrence_week_days@,
            final(self).next_event_id == old(self).next_event_id,
            final(self).next_recurrence_id == old(self).next_recurrence_id,
            final(self).next_schedule_id == old(self).next_schedule_id,
    {
        let ghost all = self.recurrences@;
        let mut kept: Vec<RecurrenceRecord> = Vec::new();
        let mut found: bool = false;
        let mut i: usize = 0;
        proof {
            reveal_with_fuel(Seq::<RecurrenceRecord>::filter, 1);
            assert(all.subrange(0, 0) =~= Seq::<RecurrenceRecord>::empty());
            assert(kept@ =~= recurrences_without(all.subrange(0, 0), id));
        }
        while i < self.recurrences.len()
            invariant
                i <= self.recurrences.len(),
                self.recurrences@ == all,
                kept@ == recurrences_without(all.subrange(0, i as int), id),
                found == has_recurrence(all.subrange(0, i as int), id),
                self.events@ == old(self).events@,
                self.memberships@ == old(self).memberships@,
                self.event_tags@ == old(self).event_tags@,
                self.schedules@ == old(self).schedules@,
                self.recurrence_week_days@ == old(self).recurrence_week_days@,
                self.next_event_id == old(self).next_event_id,
                self.next_recurrence_id == old(self).next_recurrence_id,
                self.next_schedule_id == old(self).next_schedule_id,
                self.recurrences@ == old(self).recurrences@,
            decreases self.recurrences.len() - i,
        {
            let row: RecurrenceRecord = self.recurrences[i];
            proof {
                reveal_with_fuel(Seq::<RecurrenceRecord>::filter, 2);
                assert(all.subrange(0, i as int + 1).drop_last() =~= all.subrange(0, i as int));
                assert(all.subrange(0, i as int + 1).last() == row);
                if row.id != id {
                    assert(recurrences_without(all.subrange(0, i as int + 1), id)
                        == recurrences_without(all.subrange(0, i as int), id).push(row));
                } else {
                    assert(recurrences_without(all.subrange(0, i as int + 1), id)
                        == recurrences_without(all.subrange(0, i as int), id));
                }
                if row.id == id {
                    assert(has_recurrence(all.subrange(0, i as int + 1), id)) by {
                        assert(all.subrange(0, i as int + 1)[i as int].id == id);
                    }
                } else {
                    if has_recurrence(all.subrange(0, i as int + 1), id) {
                        let j = choose|j: int|
                            0 <= j < all.subrange(0, i as int + 1).len() && (#[trigger] all.subrange(
                                0,
                                i as int + 1,
                            )[j]).id == id;
                        if j < i {
                            assert(all.subrange(0, i as int)[j].id == id);
                        }
                    }
                }
            }
            if row.id == id {
                found = true;
            } else {
                kept.push(row);
            }
            i = i + 1;
        }
        proof {
            assert(all.subrange(0, all.len() as int) =~= all);
        }
        self.recurrences = kept;
        if found {
            Ok(())
        } else {
            Err(EventError::NotFound)
        }
    }

    /// Is the user a member of the event?
    fn is_member(&self, user_id: i64, event_id: i64) -> (r: bool)
        ensures
            r == user_in_event(self.memberships@, user_id, event_id),
    {
        let mut i: usize = 0;
        while i < self.memberships.len()
            invariant
                i <= self.memberships.len(),
                forall|j: int|
                    0 <= j < i ==> !((#[trigger] self.memberships@[j]).user_id == user_id
                        && self.memberships@[j].event_id == event_id),
            decreases self.memberships.len() - i,
        {
            let row: MembershipRow = self.memberships[i];
            if row.user_id == user_id && row.event_id == event_id {
                proof {
                    assert(self.memberships@[i as int].user_id == user_id
                        && self.memberships@[i as int].event_id == event_id);
                }
                return true;
            }
            i = i + 1;
        }
        false
    }

    /// The schedules of every event the user belongs to, in their stored
    /// order.
    pub fn list_user_schedules(&self, user_id: i64) -> (r: Vec<Schedule>)
        ensures
            r@ == schedules_of_user(self.schedules@, self.memberships@, user_id),
    {
        let ghost all = self.schedules@;
        let mut r: Vec<Schedule> = Vec::new();
        let mut i: usize = 0;
        proof {
            reveal_with_fuel(Seq::<Schedule>::filter, 1);
            assert(all.subrange(0, 0) =~= Seq::<Schedule>::empty());
            assert(r@ =~= schedules_of_user(all.subrange(0, 0), self.memberships@, user_id));
        }
        while i < self.schedules.len()
            invariant
                i <= self.schedules.len(),
                self.schedules@ == all,
                r@ == schedules_of_user(all.subrange(0, i as int), self.memberships@, user_id),
            decreases self.schedules.len() - i,
        {
            let row: Schedule = self.schedules[i];
            let keep: bool = self.is_member(user_id, row.event_id);
            proof {
                reveal_with_fuel(Seq::<Schedule>::filter, 2);
                assert(all.subrange(0, i as int + 1).drop_last() =~= all.subrange(0, i as int));
                assert(all.subrange(0, i as int + 1).last() == row);
                if keep {
                    assert(schedules_of_user(
                        all.subrange(0, i as int + 1),
                        self.memberships@,
                        user_id,
                    ) == schedules_of_user(
                        all.subrange(0, i as int),
                        self.memberships@,
                        user_id,
                    ).push(row));
                } else {
                    assert(schedules_of_user(
                        all.subrange(0, i as int + 1),
                        self.memberships@,
                        user_id,
                    ) == schedules_of_user(all.subrange(0, i as int), self.memberships@, user_id));
                }
            }
            if keep {
                r.push(row);
            }
            i = i + 1;
        }
        proof {
            assert(all.subrange(0, all.len() as int) =~= all);
        }
        r
    }

    /// The schedules of one event, in their stored order.
    pub fn list_event_schedules(&self, event_id: i64) -> (r: Vec<Schedule>)
        ensures
            r@ == schedules_of_event(self.schedules@, event_id),
    {
        let ghost all = self.schedules@;
        let mut r: Vec<Schedule> = Vec::new();
        let mut i: usize = 0;
        proof {
            reveal_with_fuel(Seq::<Schedule>::filter, 1);
            assert(all.subrange(0, 0) =~= Seq::<Schedule>::empty());
            assert(r@ =~= schedules_of_event(all.subrange(0, 0), event_id));
        }
        while i < self.schedules.len()
            invariant
                i <= self.schedules.len(),
                self.schedules@ == all,
                r@ == schedules_of_event(all.subrange(0, i as int), event_id),
            decreases self.schedules.len() - i,
        {
            let row: Schedule = self.schedules[i];
            proof {
                reveal_with_fuel(Seq::<Schedule>::filter, 2);
                assert(all.subrange(0, i as int + 1).drop_last() =~= all.subrange(0, i as int));
                assert(all.subrange(0, i as int + 1).last() == row);
                if row.event_id == event_id {
                    assert(schedules_of_event(all.subrange(0, i as int + 1), event_id)
                        == schedules_of_event(all.subrange(0, i as int), event_id).push(row));
                } else {
                    assert(schedules_of_event(all.subrange(0, i as int + 1), event_id)
                        == schedules_of_event(all.subrange(0, i as int), event_id));
                }
            }
            if row.event_id == event_id {
                r.push(row);
            }
            i = i + 1;
        }
        proof {
            assert(all.subrange(0, all.len() as int) =~= all);
        }
        r
    }
}


/// Splitting a row sequence splits its per-event selection.
proof fn lemma_schedules_of_event_add(a: Seq<Schedule>, b: Seq<Schedule>, event_id: i64)
    ensures
        schedules_of_event(a + b, event_id) == schedules_of_event(a, event_id)
            + schedules_of_event(b, event_id),
    decreases b.len(),
{
    reveal_with_fuel(Seq::<Schedule>::filter, 1);
    if b.len() == 0 {
        assert(a + b =~= a);
        assert(schedules_of_event(b, event_id) =~= Seq::<Schedule>::empty());
        assert(schedules_of_event(a, event_id) + Seq::<Schedule>::empty() =~= schedules_of_event(
            a,
            event_id,
        ));
    } else {
        lemma_schedules_of_event_add(a, b.drop_last(), event_id);
        assert((a + b).drop_last() =~= a + b.drop_last());
        assert((a + b).len() > 0);
        assert((a + b).last() == b.last());
        if b.last().event_id == event_id {
            assert((schedules_of_event(a, event_id) + schedules_of_event(
                b.drop_last(),
                event_id,
            )).push(b.last()) =~= schedules_of_event(a, event_id) + schedules_of_event(
                b.drop_last(),
                event_id,
            ).push(b.last()));
        }
    }
}

/// Selecting an event keeps every row when all rows belong to it.
proof fn lemma_schedules_of_event_all(s: Seq<Schedule>, event_id: i64)
    requires
        forall|i: int| 0 <= i < s.len() ==> (#[trigger] s[i]).event_id == event_id,
    ensures
        schedules_of_event(s, event_id) == s,
    decreases s.len(),
{
    reveal_with_fuel(Seq::<Schedule>::filter, 1);
    if s.len() > 0 {
        lemma_schedules_of_event_all(s.drop_last(), event_id);
        assert(s.drop_last().push(s.last()) =~= s);
    }
}

/// Selecting an event keeps no row when no row belongs to it.
proof fn lemma_schedules_of_event_none(s: Seq<Schedule>, event_id: i64)
    requires
        forall|i: int| 0 <= i < s.len() ==> (#[trigger] s[i]).event_id != event_id,
    ensures
        schedules_of_event(s, event_id) == Seq::<Schedule>::empty(),
    decreases s.len(),
{
    reveal_with_fuel(Seq::<Schedule>::filter, 1);
    if s.len() > 0 {
        lemma_schedules_of_event_none(s.drop_last(), event_id);
    } else {
        assert(schedules_of_event(s, event_id) =~= Seq::<Schedule>::empty());
    }
}

/// One committed creation keeps the store well-formed: the new rows use
/// exactly the freshly handed-out identifiers.
pub proof fn lemma_plan_applied_preserves_wf(pre: Database, post: Database, plan: EventWritePlan)
    requires
        pre.wf(),
        plan_applied(pre, post, plan),
        pre.next_event_id < i64::MAX,
        pre.next_recurrence_id < i64::MAX,
        pre.next_schedule_id + plan.occurrences@.len() < i64::MAX,
    ensures
        post.wf(),
{
    let rid_opt = match plan.recurrence {
        Some(_) => Some(pre.next_recurrence_id),
        None => None,
    };
    let new_rows = schedule_rows_of(
        pre.next_schedule_id,
        pre.next_event_id,
        rid_opt,
        plan.occurrences@,
    );
    assert(post.schedules@ == pre.schedules@ + new_rows);
    assert forall|i: int| 0 <= i < post.schedules@.len() implies (#[trigger] post.schedules@[i]).id
        < post.next_schedule_id && post.schedules@[i].event_id < post.next_event_id by {
        if i < pre.schedules@.len() {
            assert(post.schedules@[i] == pre.schedules@[i]);
        } else {
            assert(post.schedules@[i] == new_rows[i - pre.schedules@.len()]);
        }
    }
}

/// The stored occurrence rows of a freshly created event mirror the
/// generated occurrence sequence one to one, and are strictly ordered by
/// start time — a strictly time-ordered, duplicate-free schedule family.
pub proof fn lemma_new_event_schedules(pre: Database, post: Database, plan: EventWritePlan)
    requires
        pre.wf(),
        plan_applied(pre, post, plan),
        occurrences_ordered(plan.occurrences@),
    ensures
        ({
            let rows = schedules_of_event(post.schedules@, pre.next_event_id);
            &&& rows.len() == plan.occurrences@.len()
            &&& forall|i: int|
                0 <= i < rows.len() ==> (#[trigger] rows[i]).start_time
                    == plan.occurrences@[i].start && rows[i].end_time == plan.occurrences@[i].end
            &&& forall|i: int|
                0 <= i && i + 1 < rows.len() ==> (#[trigger] rows[i]).start_time.time_key()
                    < rows[i + 1].start_time.time_key()
        }),
{
    let eid = pre.next_event_id;
    let rid_opt = match plan.recurrence {
        Some(_) => Some(pre.next_recurrence_id),
        None => None,
    };
    let new_rows = schedule_rows_of(pre.next_schedule_id, eid, rid_opt, plan.occurrences@);
    assert(post.schedules@ == pre.schedules@ + new_rows);
    lemma_schedules_of_event_add(pre.schedules@, new_rows, eid);
    lemma_schedules_of_event_none(pre.schedules@, eid);
    lemma_schedules_of_event_all(new_rows, eid);
    assert(Seq::<Schedule>::empty() + new_rows =~= new_rows);
    assert(schedules_of_event(post.schedules@, eid) == new_rows);
}

} // verus!
