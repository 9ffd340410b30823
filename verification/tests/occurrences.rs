use event_calendar::generate::generate_occurrences;
use event_calendar::rule::{resolve, EventConfiguration, RecurrenceType};
use event_calendar::time::{DateTime, Weekday};
use event_calendar::writer::{plan_event, CreateEventRequest, EventError};

fn dt(year: i32, month: u8, day: u8, hour: u8, minute: u8, second: u8) -> DateTime {
    DateTime::new(year, month, day, hour, minute, second).expect("valid timestamp")
}

fn request_with(configuration: Option<EventConfiguration>) -> CreateEventRequest {
    CreateEventRequest {
        name: "standup".to_string(),
        description: "daily sync".to_string(),
        private: None,
        user_id: 42,
        super_event_id: None,
        tags: None,
        configuration,
    }
}

#[test]
fn daily_rule_derives_end_date_and_emits_four() {
    // Daily, 2024-01-01 09:00-10:00, step 1, repetitions 3, no end date:
    // the end date resolves to 2024-01-04 10:00 and four occurrences come
    // out, January 1 through 4, each 09:00-10:00.
    let config = EventConfiguration::Daily {
        start_time: dt(2024, 1, 1, 9, 0, 0),
        end_time: dt(2024, 1, 1, 10, 0, 0),
        step: Some(1),
        repetitions: Some(3),
        end_date: None,
    };
    let plan = plan_event(request_with(Some(config))).expect("accepted");
    let rec = plan.recurrence.as_ref().expect("recurrence row");
    assert!(matches!(rec.rtype, RecurrenceType::Daily));
    assert_eq!(rec.step, 1);
    assert_eq!(rec.repetitions, 3);
    assert_eq!(rec.end_date, dt(2024, 1, 4, 10, 0, 0));
    assert_eq!(plan.occurrences.len(), 4);
    for (i, occ) in plan.occurrences.iter().enumerate() {
        assert_eq!(occ.start, dt(2024, 1, 1 + i as u8, 9, 0, 0));
        assert_eq!(occ.end, dt(2024, 1, 1 + i as u8, 10, 0, 0));
    }
}

#[test]
fn weekly_rule_emits_on_listed_days_only() {
    // Weekly on Monday and Wednesday, base range Monday 2024-01-01
    // 09:00-10:00, end date 2024-01-15 10:00: occurrences on January 1,
    // 3, 8, 10 and 15; January 17 lies past the end date.
    let config = EventConfiguration::Weekly {
        start_time: dt(2024, 1, 1, 9, 0, 0),
        end_time: dt(2024, 1, 1, 10, 0, 0),
        step: None,
        repetitions: None,
        end_date: Some(dt(2024, 1, 15, 10, 0, 0)),
        days_of_week: vec![Weekday::Monday, Weekday::Wednesday],
    };
    let plan = plan_event(request_with(Some(config))).expect("accepted");
    let days: Vec<u8> = plan.occurrences.iter().map(|o| o.end.day).collect();
    assert_eq!(days, vec![1, 3, 8, 10, 15]);
    for occ in &plan.occurrences {
        assert_eq!((occ.start.hour, occ.end.hour), (9, 10));
        assert!(matches!(occ.end.weekday(), Weekday::Monday | Weekday::Wednesday));
    }
    let rec = plan.recurrence.as_ref().expect("recurrence row");
    assert!(matches!(rec.rtype, RecurrenceType::Weekly));
    // Two whole weeks fit between the base end and the end date.
    assert_eq!(rec.repetitions, 2);
    assert_eq!(plan.week_days, vec![Weekday::Monday, Weekday::Wednesday]);
}

#[test]
fn individual_with_reversed_range_is_rejected() {
    let config = EventConfiguration::Individual {
        start_time: dt(2024, 1, 1, 10, 0, 0),
        end_time: dt(2024, 1, 1, 9, 0, 0),
    };
    assert_eq!(plan_event(request_with(Some(config))), Err(EventError::InvalidTimeRange));
    let degenerate = EventConfiguration::Individual {
        start_time: dt(2024, 1, 1, 9, 0, 0),
        end_time: dt(2024, 1, 1, 9, 0, 0),
    };
    assert_eq!(plan_event(request_with(Some(degenerate))), Err(EventError::InvalidTimeRange));
}

#[test]
fn reversed_range_is_rejected_for_repeating_rules_too() {
    let config = EventConfiguration::Daily {
        start_time: dt(2024, 1, 2, 9, 0, 0),
        end_time: dt(2024, 1, 1, 9, 0, 0),
        step: None,
        repetitions: Some(2),
        end_date: None,
    };
    assert_eq!(plan_event(request_with(Some(config))), Err(EventError::InvalidTimeRange));
}

#[test]
fn individual_yields_exactly_one_occurrence_and_no_recurrence() {
    let config = EventConfiguration::Individual {
        start_time: dt(2024, 3, 10, 14, 0, 0),
        end_time: dt(2024, 3, 10, 15, 30, 0),
    };
    let plan = plan_event(request_with(Some(config))).expect("accepted");
    assert!(plan.recurrence.is_none());
    assert!(plan.week_days.is_empty());
    assert_eq!(plan.occurrences.len(), 1);
    assert_eq!(plan.occurrences[0].start, dt(2024, 3, 10, 14, 0, 0));
    assert_eq!(plan.occurrences[0].end, dt(2024, 3, 10, 15, 30, 0));
}

#[test]
fn monthly_rule_clamps_at_short_months() {
    // A monthly rule anchored on January 31 steps to February 29 (leap
    // year) and stays clamped afterwards.
    let config = EventConfiguration::Monthly {
        start_time: dt(2024, 1, 31, 9, 0, 0),
        end_time: dt(2024, 1, 31, 10, 0, 0),
        step: None,
        repetitions: Some(2),
        end_date: None,
    };
    let plan = plan_event(request_with(Some(config))).expect("accepted");
    let starts: Vec<(i32, u8, u8)> =
        plan.occurrences.iter().map(|o| (o.start.year, o.start.month, o.start.day)).collect();
    assert_eq!(starts, vec![(2024, 1, 31), (2024, 2, 29), (2024, 3, 29)]);
    let rec = plan.recurrence.as_ref().expect("recurrence row");
    assert_eq!(rec.end_date, dt(2024, 3, 29, 10, 0, 0));
}

#[test]
fn monthly_clamp_in_common_year() {
    let config = EventConfiguration::Monthly {
        start_time: dt(2023, 1, 31, 9, 0, 0),
        end_time: dt(2023, 1, 31, 10, 0, 0),
        step: None,
        repetitions: Some(1),
        end_date: None,
    };
    let plan = plan_event(request_with(Some(config))).expect("accepted");
    let starts: Vec<(i32, u8, u8)> =
        plan.occurrences.iter().map(|o| (o.start.year, o.start.month, o.start.day)).collect();
    assert_eq!(starts, vec![(2023, 1, 31), (2023, 2, 28)]);
}

#[test]
fn yearly_rule_steps_whole_years() {
    let config = EventConfiguration::Yearly {
        start_time: dt(2024, 2, 29, 9, 0, 0),
        end_time: dt(2024, 2, 29, 10, 0, 0),
        step: None,
        repetitions: Some(2),
        end_date: None,
    };
    let plan = plan_event(request_with(Some(config))).expect("accepted");
    let starts: Vec<(i32, u8, u8)> =
        plan.occurrences.iter().map(|o| (o.start.year, o.start.month, o.start.day)).collect();
    // February 29 clamps to the 28th in common years and stays there.
    assert_eq!(starts, vec![(2024, 2, 29), (2025, 2, 28), (2026, 2, 28)]);
}

#[test]
fn occurrence_ending_exactly_on_end_date_is_included() {
    let config = EventConfiguration::Daily {
        start_time: dt(2024, 1, 1, 9, 0, 0),
        end_time: dt(2024, 1, 1, 10, 0, 0),
        step: Some(1),
        repetitions: None,
        end_date: Some(dt(2024, 1, 3, 10, 0, 0)),
    };
    let plan = plan_event(request_with(Some(config))).expect("accepted");
    assert_eq!(plan.occurrences.len(), 3);
    assert_eq!(plan.occurrences[2].end, dt(2024, 1, 3, 10, 0, 0));
}

#[test]
fn end_date_before_base_end_yields_no_occurrences() {
    let config = EventConfiguration::Daily {
        start_time: dt(2024, 5, 1, 9, 0, 0),
        end_time: dt(2024, 5, 1, 10, 0, 0),
        step: None,
        repetitions: None,
        end_date: Some(dt(2024, 4, 1, 0, 0, 0)),
    };
    let plan = plan_event(request_with(Some(config))).expect("accepted");
    assert!(plan.occurrences.is_empty());
    assert_eq!(plan.recurrence.as_ref().expect("recurrence row").repetitions, 0);
}

#[test]
fn weekly_without_days_is_malformed() {
    let config = EventConfiguration::Weekly {
        start_time: dt(2024, 1, 1, 9, 0, 0),
        end_time: dt(2024, 1, 1, 10, 0, 0),
        step: None,
        repetitions: None,
        end_date: Some(dt(2024, 1, 15, 10, 0, 0)),
        days_of_week: vec![],
    };
    assert_eq!(plan_event(request_with(Some(config))), Err(EventError::MalformedRule));
}

#[test]
fn out_of_range_step_or_repetitions_is_malformed() {
    let zero_step = EventConfiguration::Daily {
        start_time: dt(2024, 1, 1, 9, 0, 0),
        end_time: dt(2024, 1, 1, 10, 0, 0),
        step: Some(0),
        repetitions: Some(3),
        end_date: None,
    };
    assert_eq!(plan_event(request_with(Some(zero_step))), Err(EventError::MalformedRule));
    let negative_reps = EventConfiguration::Monthly {
        start_time: dt(2024, 1, 1, 9, 0, 0),
        end_time: dt(2024, 1, 1, 10, 0, 0),
        step: Some(1),
        repetitions: Some(-1),
        end_date: None,
    };
    assert_eq!(plan_event(request_with(Some(negative_reps))), Err(EventError::MalformedRule));
}

#[test]
fn resolver_applies_per_kind_default_repetitions() {
    let daily = resolve(&EventConfiguration::Daily {
        start_time: dt(2024, 1, 1, 9, 0, 0),
        end_time: dt(2024, 1, 1, 10, 0, 0),
        step: None,
        repetitions: None,
        end_date: None,
    });
    assert_eq!((daily.step, daily.repetitions), (1, 730));
    assert_eq!(daily.end_date, dt(2024, 1, 1, 10, 0, 0).checked_add_days(730).unwrap());
    assert_eq!(daily.end_date, dt(2025, 12, 31, 10, 0, 0));

    let weekly = resolve(&EventConfiguration::Weekly {
        start_time: dt(2024, 1, 1, 9, 0, 0),
        end_time: dt(2024, 1, 1, 10, 0, 0),
        step: None,
        repetitions: None,
        end_date: None,
        days_of_week: vec![Weekday::Monday],
    });
    assert_eq!((weekly.step, weekly.repetitions), (1, 156));
    assert_eq!(weekly.end_date, dt(2024, 1, 1, 10, 0, 0).checked_add_days(156 * 7).unwrap());

    let monthly = resolve(&EventConfiguration::Monthly {
        start_time: dt(2024, 1, 15, 9, 0, 0),
        end_time: dt(2024, 1, 15, 10, 0, 0),
        step: None,
        repetitions: None,
        end_date: None,
    });
    assert_eq!((monthly.step, monthly.repetitions), (1, 60));
    assert_eq!(monthly.end_date, dt(2029, 1, 15, 10, 0, 0));

    let yearly = resolve(&EventConfiguration::Yearly {
        start_time: dt(2024, 1, 15, 9, 0, 0),
        end_time: dt(2024, 1, 15, 10, 0, 0),
        step: None,
        repetitions: None,
        end_date: None,
    });
    assert_eq!((yearly.step, yearly.repetitions), (1, 10));
    assert_eq!(yearly.end_date, dt(2034, 1, 15, 10, 0, 0));
}

#[test]
fn supplied_end_date_overrides_supplied_repetitions() {
    // Both given: the repetition count is recomputed from the end date.
    let rule = resolve(&EventConfiguration::Daily {
        start_time: dt(2024, 1, 1, 9, 0, 0),
        end_time: dt(2024, 1, 1, 10, 0, 0),
        step: Some(2),
        repetitions: Some(10),
        end_date: Some(dt(2024, 1, 8, 10, 0, 0)),
    });
    // Seven days fit three whole two-day steps.
    assert_eq!(rule.repetitions, 3);
    assert_eq!(rule.end_date, dt(2024, 1, 8, 10, 0, 0));
}

#[test]
fn monthly_repetitions_derived_calendar_aware() {
    let rule = resolve(&EventConfiguration::Monthly {
        start_time: dt(2024, 1, 31, 9, 0, 0),
        end_time: dt(2024, 1, 31, 10, 0, 0),
        step: Some(1),
        repetitions: None,
        end_date: Some(dt(2024, 4, 29, 10, 0, 0)),
    });
    // Jan 31 -> Feb 29 -> Mar 29 -> Apr 29 (ends 10:00, on the end date).
    assert_eq!(rule.repetitions, 3);
    let occ = generate_occurrences(&rule);
    assert_eq!(occ.len(), 4);
    let starts: Vec<(u8, u8)> = occ.iter().map(|o| (o.start.month, o.start.day)).collect();
    assert_eq!(starts, vec![(1, 31), (2, 29), (3, 29), (4, 29)]);
}

#[test]
fn generated_sequences_are_ordered_and_bounded() {
    let rule = resolve(&EventConfiguration::Weekly {
        start_time: dt(2024, 1, 4, 23, 0, 0),
        end_time: dt(2024, 1, 5, 1, 0, 0),
        step: None,
        repetitions: None,
        end_date: Some(dt(2024, 3, 1, 0, 0, 0)),
        days_of_week: vec![Weekday::Friday, Weekday::Sunday],
    });
    let occ = generate_occurrences(&rule);
    assert!(!occ.is_empty());
    for w in occ.windows(2) {
        assert!(w[0].start.to_time_key() < w[1].start.to_time_key());
    }
    for o in &occ {
        assert!(o.end.to_time_key() <= rule.end_date.to_time_key());
        assert!(matches!(o.end.weekday(), Weekday::Friday | Weekday::Sunday));
    }
}
