use clawd_cal::calendar::CalendarState;
use clawd_cal::csv_file::{export_to_csv, import_from_csv, times_are_valid, CsvError};
use clawd_cal::datetime::{Date, DateTime};
use clawd_cal::events::{Category, Event};

fn event(title: &str, day: u32, hour: u32) -> Event {
    let date = Date::from_ymd_opt(2024, 1, day).unwrap();
    Event::new(title.to_string(), date.and_hms_opt(hour, 0, 0).unwrap(), date.and_hms_opt(hour + 1, 0, 0).unwrap())
}

#[test]
fn test_export_csv() {
    let mut state = CalendarState::new();

    let date = Date::from_ymd_opt(2024, 1, 15).unwrap();
    let start = date.and_hms_opt(10, 0, 0).unwrap();
    let end = date.and_hms_opt(11, 0, 0).unwrap();

    let event = Event::new("Test Event".to_string(), start, end);
    state.add_event(event);

    let bytes = export_to_csv(&state).unwrap();

    let content = String::from_utf8(bytes).unwrap();
    assert!(content.contains("title,start,end,description,category"));
    assert!(content.contains("Test Event"));
}

#[test]
fn test_import_csv() {
    let mut state = CalendarState::new();

    let csv_content = "title,start,end,description,category
\"Test Event\",2024-01-15 10:00,2024-01-15 11:00,\"Test description\",\"Work\"";

    let count = import_from_csv(&mut state, csv_content.as_bytes(), true).unwrap();
    assert_eq!(count, 1);
    assert_eq!(state.events.len(), 1);
    assert_eq!(state.events[0].title, "Test Event");
}

#[test]
fn test_import_csv_merge() {
    let mut state = CalendarState::new();

    let date = Date::from_ymd_opt(2024, 1, 15).unwrap();
    let start = date.and_hms_opt(9, 0, 0).unwrap();
    let end = date.and_hms_opt(10, 0, 0).unwrap();
    state.add_event(Event::new("Existing Event".to_string(), start, end));

    let csv_content = "title,start,end,description,category
\"New Event\",2024-01-15 11:00,2024-01-15 12:00,\"Imported\",\"Personal\"";

    let count = import_from_csv(&mut state, csv_content.as_bytes(), false).unwrap();
    assert_eq!(count, 1);
    assert_eq!(state.events.len(), 2);
}

#[test]
fn test_import_csv_replace() {
    let mut state = CalendarState::new();

    let date = Date::from_ymd_opt(2024, 1, 15).unwrap();
    let start = date.and_hms_opt(9, 0, 0).unwrap();
    let end = date.and_hms_opt(10, 0, 0).unwrap();
    state.add_event(Event::new("Existing Event".to_string(), start, end));

    let csv_content = "title,start,end,description,category
\"New Event\",2024-01-15 11:00,2024-01-15 12:00,\"Imported\",\"Personal\"";

    let count = import_from_csv(&mut state, csv_content.as_bytes(), true).unwrap();
    assert_eq!(count, 1);
    assert_eq!(state.events.len(), 1);
    assert_eq!(state.events[0].title, "New Event");
}

#[test]
fn export_writes_every_field_and_quotes_where_needed() {
    let mut state = CalendarState::new();
    state.add_event(
        event("Lunch, late", 15, 12)
            .with_description("with \"Sam\"".to_string())
            .with_category(Category::new("Personal".to_string())),
    );
    state.add_event(event("Early", 15, 8));
    let content = String::from_utf8(export_to_csv(&state).unwrap()).unwrap();
    assert_eq!(
        content,
        "title,start,end,description,category\n\
         Early,2024-01-15 08:00,2024-01-15 09:00,,\n\
         \"Lunch, late\",2024-01-15 12:00,2024-01-15 13:00,\"with \"\"Sam\"\"\",Personal\n"
    );
}

#[test]
fn export_then_import_gives_the_events_back() {
    let mut state = CalendarState::new();
    state.add_event(event("One", 15, 9).with_description("first".to_string()));
    state.add_event(event("Two", 16, 10).with_category(Category::new("Work".to_string())));
    let bytes = export_to_csv(&state).unwrap();
    let mut copy = CalendarState::new();
    assert_eq!(import_from_csv(&mut copy, &bytes, true).unwrap(), 2);
    assert_eq!(copy.events.len(), 2);
    for (a, b) in state.events.iter().zip(copy.events.iter()) {
        assert_eq!(a.title, b.title);
        assert_eq!(a.start_time, b.start_time);
        assert_eq!(a.end_time, b.end_time);
        assert_eq!(a.description, b.description);
        assert_eq!(a.category, b.category);
    }
}

#[test]
fn import_needs_title_start_and_end_columns() {
    let mut state = CalendarState::new();
    state.add_event(event("Kept", 15, 9));
    let result = import_from_csv(&mut state, "title,start\nA,2024-01-15 10:00\n".as_bytes(), true);
    assert_eq!(result, Err(CsvError::Parse("CSV must have headers: title, start, end".to_string())));
    assert_eq!(state.events.len(), 1);
}

#[test]
fn import_skips_untitled_rows_and_finds_columns_by_name() {
    let mut state = CalendarState::new();
    let text = "end,title,start\n2024-01-15 11:00,,not a date\n2024-01-15 11:00,Named,2024-01-15 10:00\n";
    assert_eq!(import_from_csv(&mut state, text.as_bytes(), false), Ok(1));
    assert_eq!(state.events[0].title, "Named");
    assert_eq!(state.events[0].description, None);
    assert_eq!(state.events[0].category, None);
}

#[test]
fn import_stops_at_a_bad_time_keeping_earlier_events() {
    let mut state = CalendarState::new();
    let text = "title,start,end\nGood,2024-01-15 10:00,2024-01-15 11:00\nBad,15/01/2024,2024-01-15 11:00\nLater,2024-01-16 10:00,2024-01-16 11:00\n";
    let result = import_from_csv(&mut state, text.as_bytes(), false);
    assert_eq!(result, Err(CsvError::Parse("Invalid start time: 15/01/2024".to_string())));
    assert_eq!(state.events.len(), 1);
    assert_eq!(state.events[0].title, "Good");
    let mut other = CalendarState::new();
    let text = "title,start,end\nBad end,2024-01-15 10:00,tomorrow\n";
    let result = import_from_csv(&mut other, text.as_bytes(), false);
    assert_eq!(result, Err(CsvError::Parse("Invalid end time: tomorrow".to_string())));
    assert!(other.events.is_empty());
}

#[test]
fn import_reports_unreadable_records() {
    let mut state = CalendarState::new();
    let text = "title,start,end\nGood,2024-01-15 10:00,2024-01-15 11:00\nshort row\n";
    let result = import_from_csv(&mut state, text.as_bytes(), false);
    assert!(matches!(result, Err(CsvError::Csv(_))));
    assert_eq!(state.events.len(), 1);
}

#[test]
fn import_of_a_header_alone_adds_nothing() {
    let mut state = CalendarState::new();
    state.add_event(event("Old", 15, 9));
    assert_eq!(import_from_csv(&mut state, "title,start,end\n".as_bytes(), true), Ok(0));
    assert!(state.events.is_empty());
}

#[test]
fn csv_error_messages() {
    assert_eq!(CsvError::Io("denied".to_string()).message(), "IO error: denied");
    assert_eq!(CsvError::Csv("bad row".to_string()).message(), "CSV error: bad row");
    assert_eq!(CsvError::Parse("bad date".to_string()).message(), "Parse error: bad date");
}

#[test]
fn times_are_valid_finds_a_moment_that_does_not_exist() {
    let good = vec![event("A", 1, 9), event("B", 2, 10)];
    assert!(times_are_valid(&good));
    let mut bad = good.clone();
    bad[1].end_time = DateTime { date: Date { year: 2023, month: 2, day: 29 }, hour: 10, minute: 0, second: 0 };
    assert!(!times_are_valid(&bad));
    let mut late = good;
    late[0].start_time.hour = 24;
    assert!(!times_are_valid(&late));
    assert!(times_are_valid(&Vec::new()));
}
