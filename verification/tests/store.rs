use event_calendar::rule::{EventConfiguration, RecurrenceType};
use event_calendar::time::{DateTime, Weekday};
use event_calendar::writer::{
    plan_event, CreateEventRequest, Database, EventError, WriteStep,
};

fn dt(year: i32, month: u8, day: u8, hour: u8, minute: u8, second: u8) -> DateTime {
    DateTime::new(year, month, day, hour, minute, second).expect("valid timestamp")
}

fn weekly_request() -> CreateEventRequest {
    CreateEventRequest {
        name: "book club".to_string(),
        description: "every monday and wednesday".to_string(),
        private: Some(true),
        user_id: 7,
        super_event_id: Some(99),
        tags: Some(vec![5, 8]),
        configuration: Some(EventConfiguration::Weekly {
            start_time: dt(2024, 1, 1, 18, 0, 0),
            end_time: dt(2024, 1, 1, 19, 0, 0),
            step: None,
            repetitions: None,
            end_date: Some(dt(2024, 1, 15, 19, 0, 0)),
            days_of_week: vec![Weekday::Monday, Weekday::Wednesday],
        }),
    }
}

#[test]
fn create_event_writes_every_row() {
    let mut db = Database::new();
    let id = db.create_event(weekly_request()).expect("created");
    assert_eq!(id, 1);

    assert_eq!(db.events.len(), 1);
    assert_eq!(db.events[0].id, 1);
    assert_eq!(db.events[0].name, "book club");
    assert!(db.events[0].private);
    assert_eq!(db.events[0].super_event_id, Some(99));

    assert_eq!(db.memberships.len(), 1);
    assert_eq!(db.memberships[0].user_id, 7);
    assert_eq!(db.memberships[0].event_id, 1);
    assert!(db.memberships[0].confirmation);
    assert!(db.memberships[0].owner);

    let tag_pairs: Vec<(i64, i64)> =
        db.event_tags.iter().map(|t| (t.event_id, t.tag_id)).collect();
    assert_eq!(tag_pairs, vec![(1, 5), (1, 8)]);

    assert_eq!(db.recurrences.len(), 1);
    assert_eq!(db.recurrences[0].id, 1);
    assert!(matches!(db.recurrences[0].rtype, RecurrenceType::Weekly));
    assert_eq!(db.recurrences[0].end_date, dt(2024, 1, 15, 19, 0, 0));

    let day_links: Vec<(i64, Weekday)> = db
        .recurrence_week_days
        .iter()
        .map(|l| (l.recurrence_id, l.week_day))
        .collect();
    assert_eq!(day_links, vec![(1, Weekday::Monday), (1, Weekday::Wednesday)]);

    // January 1, 3, 8, 10, 15 at 18:00-19:00, ids 1..=5, all bound to the
    // event and its recurrence.
    assert_eq!(db.schedules.len(), 5);
    for (i, s) in db.schedules.iter().enumerate() {
        assert_eq!(s.id, 1 + i as i64);
        assert_eq!(s.event_id, 1);
        assert_eq!(s.recurrence_id, Some(1));
    }
    let days: Vec<u8> = db.schedules.iter().map(|s| s.end_time.day).collect();
    assert_eq!(days, vec![1, 3, 8, 10, 15]);

    assert_eq!(db.next_event_id, 2);
    assert_eq!(db.next_recurrence_id, 2);
    assert_eq!(db.next_schedule_id, 6);
}

#[test]
fn individual_event_stores_one_schedule_and_no_recurrence() {
    let mut db = Database::new();
    let req = CreateEventRequest {
        name: "dentist".to_string(),
        description: "check-up".to_string(),
        private: None,
        user_id: 3,
        super_event_id: None,
        tags: None,
        configuration: Some(EventConfiguration::Individual {
            start_time: dt(2024, 6, 10, 8, 0, 0),
            end_time: dt(2024, 6, 10, 8, 30, 0),
        }),
    };
    db.create_event(req).expect("created");
    assert!(db.recurrences.is_empty());
    assert!(db.recurrence_week_days.is_empty());
    assert_eq!(db.schedules.len(), 1);
    assert_eq!(db.schedules[0].recurrence_id, None);
    assert_eq!(db.schedules[0].start_time, dt(2024, 6, 10, 8, 0, 0));
    assert_eq!(db.schedules[0].end_time, dt(2024, 6, 10, 8, 30, 0));
    assert!(!db.events[0].private);
}

#[test]
fn event_without_configuration_stores_no_schedules() {
    let mut db = Database::new();
    let req = CreateEventRequest {
        name: "someday".to_string(),
        description: "no dates yet".to_string(),
        private: None,
        user_id: 1,
        super_event_id: None,
        tags: None,
        configuration: None,
    };
    let id = db.create_event(req).expect("created");
    assert_eq!(id, 1);
    assert_eq!(db.events.len(), 1);
    assert_eq!(db.memberships.len(), 1);
    assert!(db.schedules.is_empty());
    assert!(db.recurrences.is_empty());
}

#[test]
fn failed_schedule_insert_leaves_no_trace() {
    // A simulated failure of the occurrence bulk-insert rolls back the
    // whole creation: no event, membership, tag, recurrence or schedule
    // row is observable afterwards.
    let mut db = Database::new();
    db.create_event(weekly_request()).expect("first event");
    let snapshot = db.clone();

    let plan = plan_event(weekly_request()).expect("plan");
    let r = db.apply_event_plan(&plan, Some(WriteStep::InsertSchedules));
    assert_eq!(r, Err(EventError::StorageUnavailable));
    assert_eq!(db, snapshot);
}

#[test]
fn any_failing_step_rolls_back_everything() {
    for step in [
        WriteStep::InsertEvent,
        WriteStep::InsertMembership,
        WriteStep::InsertTags,
        WriteStep::InsertRecurrence,
        WriteStep::InsertWeekDays,
        WriteStep::InsertSchedules,
        WriteStep::Commit,
    ] {
        let mut db = Database::new();
        let snapshot = db.clone();
        let plan = plan_event(weekly_request()).expect("plan");
        let r = db.apply_event_plan(&plan, Some(step));
        assert_eq!(r, Err(EventError::StorageUnavailable));
        assert_eq!(db, snapshot);
    }
}

#[test]
fn skipped_steps_cannot_fail() {
    // An individual event writes no recurrence, weekday or tag rows, so a
    // failure injected at those steps never fires.
    let mut db = Database::new();
    let req = CreateEventRequest {
        name: "one-off".to_string(),
        description: "single".to_string(),
        private: None,
        user_id: 2,
        super_event_id: None,
        tags: None,
        configuration: Some(EventConfiguration::Individual {
            start_time: dt(2024, 2, 1, 12, 0, 0),
            end_time: dt(2024, 2, 1, 13, 0, 0),
        }),
    };
    let plan = plan_event(req).expect("plan");
    for step in [WriteStep::InsertTags, WriteStep::InsertRecurrence, WriteStep::InsertWeekDays] {
        let r = db.apply_event_plan(&plan, Some(step));
        assert!(r.is_ok());
    }
    assert_eq!(db.events.len(), 3);
}

#[test]
fn rejected_request_writes_nothing() {
    let mut db = Database::new();
    let snapshot = db.clone();
    let req = CreateEventRequest {
        name: "bad".to_string(),
        description: "reversed range".to_string(),
        private: None,
        user_id: 1,
        super_event_id: None,
        tags: Some(vec![1]),
        configuration: Some(EventConfiguration::Individual {
            start_time: dt(2024, 1, 2, 9, 0, 0),
            end_time: dt(2024, 1, 1, 9, 0, 0),
        }),
    };
    assert_eq!(db.create_event(req), Err(EventError::InvalidTimeRange));
    assert_eq!(db, snapshot);
}

#[test]
fn duplicate_tag_pairing_is_a_constraint_violation() {
    let mut db = Database::new();
    let snapshot = db.clone();
    let mut req = weekly_request();
    req.tags = Some(vec![5, 8, 5]);
    assert_eq!(db.create_event(req), Err(EventError::ConstraintViolation));
    assert_eq!(db, snapshot);
}

#[test]
fn duplicate_weekday_association_is_a_constraint_violation() {
    let mut db = Database::new();
    let snapshot = db.clone();
    let req = CreateEventRequest {
        name: "twice monday".to_string(),
        description: "".to_string(),
        private: None,
        user_id: 1,
        super_event_id: None,
        tags: None,
        configuration: Some(EventConfiguration::Weekly {
            start_time: dt(2024, 1, 1, 9, 0, 0),
            end_time: dt(2024, 1, 1, 10, 0, 0),
            step: None,
            repetitions: None,
            end_date: Some(dt(2024, 1, 15, 10, 0, 0)),
            days_of_week: vec![Weekday::Monday, Weekday::Monday],
        }),
    };
    assert_eq!(db.create_event(req), Err(EventError::ConstraintViolation));
    assert_eq!(db, snapshot);
}

#[test]
fn delete_schedule_removes_exactly_one_row() {
    let mut db = Database::new();
    db.create_event(weekly_request()).expect("created");
    assert_eq!(db.schedules.len(), 5);
    assert_eq!(db.delete_schedule(3), Ok(()));
    assert_eq!(db.schedules.len(), 4);
    assert!(db.schedules.iter().all(|s| s.id != 3));
    // Everything else stays.
    assert_eq!(db.events.len(), 1);
    assert_eq!(db.recurrences.len(), 1);
}

#[test]
fn delete_schedule_reports_missing_rows() {
    let mut db = Database::new();
    db.create_event(weekly_request()).expect("created");
    let snapshot = db.clone();
    assert_eq!(db.delete_schedule(77), Err(EventError::NotFound));
    assert_eq!(db, snapshot);
}

#[test]
fn delete_recurrence_keeps_schedules() {
    let mut db = Database::new();
    db.create_event(weekly_request()).expect("created");
    assert_eq!(db.delete_recurrence(1), Ok(()));
    assert!(db.recurrences.is_empty());
    assert_eq!(db.schedules.len(), 5);
    assert_eq!(db.delete_recurrence(1), Err(EventError::NotFound));
}

#[test]
fn schedules_are_listed_per_event() {
    let mut db = Database::new();
    db.create_event(weekly_request()).expect("first");
    let mut second = weekly_request();
    second.name = "second".to_string();
    let id2 = db.create_event(second).expect("second");
    let first_rows = db.list_event_schedules(1);
    let second_rows = db.list_event_schedules(id2);
    assert_eq!(first_rows.len(), 5);
    assert_eq!(second_rows.len(), 5);
    assert!(first_rows.iter().all(|s| s.event_id == 1));
    assert!(second_rows.iter().all(|s| s.event_id == id2));
    assert!(db.list_event_schedules(42).is_empty());
}

#[test]
fn user_schedules_follow_memberships() {
    let mut db = Database::new();
    db.create_event(weekly_request()).expect("first");
    let mut second = weekly_request();
    second.user_id = 8;
    db.create_event(second).expect("second");
    // User 7 owns the first event only; user 8 the second; user 9 none.
    assert_eq!(db.list_user_schedules(7).len(), 5);
    assert!(db.list_user_schedules(7).iter().all(|s| s.event_id == 1));
    assert_eq!(db.list_user_schedules(8).len(), 5);
    assert!(db.list_user_schedules(9).is_empty());
}

#[test]
fn error_messages_name_the_cause() {
    assert!(EventError::MalformedRule.message().contains("Malformed"));
    assert!(EventError::NotFound.message().contains("Not found"));
}
