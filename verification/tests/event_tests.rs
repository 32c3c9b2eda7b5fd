use clawd_cal::datetime::{Date, DateTime};
use clawd_cal::events::{generate, id_from_clock, Category, Event, RecurrenceFrequency, RecurringRules, Reminder};

fn at(day: u32, hour: u32, minute: u32) -> DateTime {
    Date::from_ymd_opt(2024, 1, day).unwrap().and_hms_opt(hour, minute, 0).unwrap()
}

#[test]
fn test_event_creation() {
    let start = at(15, 10, 0);
    let end = at(15, 11, 0);

    let event = Event::new("Test Event".to_string(), start, end);

    assert_eq!(event.title, "Test Event");
    assert_eq!(event.start_time, start);
    assert_eq!(event.end_time, end);
    assert!(event.description.is_none());
    assert!(event.location.is_none());
    assert!(event.recurring_rules.is_none());
    assert!(event.category.is_none());
    assert!(event.reminders.is_empty());
    assert!(!event.id.is_empty());
}

#[test]
fn test_event_with_builder_methods() {
    let start = at(15, 10, 0);
    let end = at(15, 11, 0);

    let category = Category::new("Work".to_string()).with_color("blue".to_string());
    let reminder = Reminder::new(15).with_message("Meeting in 15 minutes".to_string());

    let event = Event::new("Team Meeting".to_string(), start, end)
        .with_description("Weekly team sync".to_string())
        .with_location("Conference Room A".to_string())
        .with_category(category.clone())
        .add_reminder(reminder.clone());

    assert_eq!(event.description, Some("Weekly team sync".to_string()));
    assert_eq!(event.location, Some("Conference Room A".to_string()));
    assert_eq!(event.category.as_ref().unwrap().name, "Work");
    assert_eq!(event.reminders.len(), 1);
    assert_eq!(event.reminders[0].minutes_before, 15);
}

#[test]
fn test_recurring_event() {
    let start = at(15, 10, 0);
    let end = at(15, 11, 0);

    let rules = RecurringRules::new(RecurrenceFrequency::Weekly, 1).with_count(10);

    let event = Event::new("Weekly Standup".to_string(), start, end).with_recurring_rules(rules);

    assert!(event.is_recurring());
    assert_eq!(event.recurring_rules.as_ref().unwrap().frequency, RecurrenceFrequency::Weekly);
    assert_eq!(event.recurring_rules.as_ref().unwrap().count, Some(10));
}

#[test]
fn test_event_duration() {
    let start = at(15, 10, 0);
    let end = at(15, 11, 30);

    let event = Event::new("Test".to_string(), start, end);
    assert_eq!(event.duration_minutes(), 90);
}

#[test]
fn test_category_creation() {
    let category = Category::new("Personal".to_string()).with_color("red".to_string());

    assert_eq!(category.name, "Personal");
    assert_eq!(category.color, Some("red".to_string()));
}

#[test]
fn test_reminder_creation() {
    let reminder = Reminder::new(30).with_message("Custom reminder".to_string());

    assert_eq!(reminder.minutes_before, 30);
    assert_eq!(reminder.message, Some("Custom reminder".to_string()));
}

#[test]
fn test_recurring_rules_with_until() {
    let until = Date::from_ymd_opt(2024, 12, 31).unwrap().and_hms_opt(23, 59, 59).unwrap();

    let rules = RecurringRules::new(RecurrenceFrequency::Daily, 1).with_until(until);

    assert_eq!(rules.frequency, RecurrenceFrequency::Daily);
    assert_eq!(rules.interval, 1);
    assert_eq!(rules.until, Some(until));
    assert_eq!(rules.count, None);
}

#[test]
fn duration_is_negative_when_end_comes_first() {
    let event = Event::new("Backwards".to_string(), at(15, 11, 0), at(15, 10, 0));
    assert_eq!(event.duration_minutes(), -60);
    assert!(!event.is_recurring());
}

#[test]
fn duration_rounds_partial_minutes_toward_zero() {
    let start = Date::from_ymd_opt(2024, 1, 15).unwrap().and_hms_opt(10, 0, 0).unwrap();
    let end = Date::from_ymd_opt(2024, 1, 16).unwrap().and_hms_opt(10, 0, 59).unwrap();
    let event = Event::new("Day".to_string(), start, end);
    assert_eq!(event.duration_minutes(), 24 * 60);
    let back = Event::new("Back".to_string(), end, start);
    assert_eq!(back.duration_minutes(), -(24 * 60));
}

#[test]
fn generated_ids_are_lowercase_hex() {
    let id = generate();
    assert!(!id.is_empty());
    assert!(id.chars().all(|c| c.is_ascii_hexdigit() && !c.is_ascii_uppercase()));
    assert!(u128::from_str_radix(&id, 16).unwrap() > 0);
}

#[test]
fn later_reminders_are_appended() {
    let event = Event::new("Two reminders".to_string(), at(15, 10, 0), at(15, 11, 0))
        .add_reminder(Reminder::new(5))
        .add_reminder(Reminder::new(60));
    assert_eq!(event.reminders.len(), 2);
    assert_eq!(event.reminders[0].minutes_before, 5);
    assert_eq!(event.reminders[1].minutes_before, 60);
    assert_eq!(event.reminders[1].message, None);
}

#[test]
fn dates_exist_only_within_the_calendar() {
    assert!(Date::from_ymd_opt(2024, 2, 29).is_some());
    assert!(Date::from_ymd_opt(2023, 2, 29).is_none());
    assert!(Date::from_ymd_opt(1900, 2, 29).is_none());
    assert!(Date::from_ymd_opt(2000, 2, 29).is_some());
    assert!(Date::from_ymd_opt(2024, 4, 31).is_none());
    assert!(Date::from_ymd_opt(2024, 13, 1).is_none());
    assert!(Date::from_ymd_opt(2024, 1, 0).is_none());
    assert!(Date::from_ymd_opt(262142, 12, 31).is_some());
    assert!(Date::from_ymd_opt(262143, 1, 1).is_none());
    assert!(Date::from_ymd_opt(-262143, 1, 1).is_some());
    assert!(Date::from_ymd_opt(-262144, 12, 31).is_none());
}

#[test]
fn days_are_added_across_years() {
    let d = Date::from_ymd_opt(2023, 12, 31).unwrap();
    assert_eq!(d.checked_add_days(1), Date::from_ymd_opt(2024, 1, 1));
    assert_eq!(d.checked_add_days(60), Date::from_ymd_opt(2024, 2, 29));
    assert_eq!(d.checked_add_days(-365), Date::from_ymd_opt(2022, 12, 31));
    let last = Date::from_ymd_opt(262142, 12, 31).unwrap();
    assert_eq!(last.checked_add_days(1), None);
    let first = Date::from_ymd_opt(-262143, 1, 1).unwrap();
    assert_eq!(first.checked_add_days(-1), None);
}

#[test]
fn times_of_day_must_exist() {
    let d = Date::from_ymd_opt(2024, 1, 15).unwrap();
    assert!(d.and_hms_opt(23, 59, 59).is_some());
    assert!(d.and_hms_opt(24, 0, 0).is_none());
    assert!(d.and_hms_opt(10, 60, 0).is_none());
    assert!(d.and_hms_opt(10, 0, 60).is_none());
}

#[test]
fn dates_compare_by_year_month_day() {
    let a = Date::from_ymd_opt(2024, 1, 31).unwrap();
    let b = Date::from_ymd_opt(2024, 2, 1).unwrap();
    assert!(a.no_later_than(&b));
    assert!(!b.no_later_than(&a));
    assert!(a.no_later_than(&a));
}

#[test]
fn ids_are_the_hex_text_of_the_clock_reading() {
    assert_eq!(id_from_clock(Some(255)), "ff");
    assert_eq!(id_from_clock(Some(0x1a2b3c)), "1a2b3c");
    assert_eq!(id_from_clock(None), "0");
    assert_ne!(id_from_clock(Some(16)), id_from_clock(Some(1)));
}
