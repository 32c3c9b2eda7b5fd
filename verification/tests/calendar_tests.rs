use chrono::Datelike;
use clawd_cal::calendar::{CalendarState, ViewMode};
use clawd_cal::datetime::{date_from_clock, today, Date};
use clawd_cal::events::Event;

fn create_test_event(title: &str, day: u32, hour: u32) -> Event {
    let start = Date::from_ymd_opt(2024, 1, day).unwrap().and_hms_opt(hour, 0, 0).unwrap();
    let end = Date::from_ymd_opt(2024, 1, day).unwrap().and_hms_opt(hour + 1, 0, 0).unwrap();
    Event::new(title.to_string(), start, end)
}

fn ymd(year: i32, month: u32, day: u32) -> Date {
    Date::from_ymd_opt(year, month, day).unwrap()
}

#[test]
fn test_calendar_state_creation() {
    let state = CalendarState::new();

    assert_eq!(state.view_mode, ViewMode::Month);
    assert_eq!(state.events.len(), 0);
    assert_eq!(state.selected_event_index, None);
}

#[test]
fn test_add_event() {
    let mut state = CalendarState::new();
    let event = create_test_event("Test Event", 15, 10);

    state.add_event(event.clone());

    assert_eq!(state.events.len(), 1);
    assert_eq!(state.events[0].title, "Test Event");
}

#[test]
fn test_remove_event() {
    let mut state = CalendarState::new();
    let event = create_test_event("Test Event", 15, 10);
    let event_id = event.id.clone();

    state.add_event(event);
    assert_eq!(state.events.len(), 1);

    let removed = state.remove_event(&event_id);
    assert!(removed.is_some());
    assert_eq!(state.events.len(), 0);
}

#[test]
fn test_get_event() {
    let mut state = CalendarState::new();
    let event = create_test_event("Test Event", 15, 10);
    let event_id = event.id.clone();

    state.add_event(event);

    let found = state.get_event(&event_id);
    assert!(found.is_some());
    assert_eq!(found.unwrap().title, "Test Event");
}

#[test]
fn test_events_on_date() {
    let mut state = CalendarState::new();

    state.add_event(create_test_event("Event 1", 15, 10));
    state.add_event(create_test_event("Event 2", 15, 14));
    state.add_event(create_test_event("Event 3", 16, 10));

    let date = ymd(2024, 1, 15);
    let events = state.events_on_date(date);

    assert_eq!(events.len(), 2);
}

#[test]
fn test_events_in_range() {
    let mut state = CalendarState::new();

    state.add_event(create_test_event("Event 1", 10, 10));
    state.add_event(create_test_event("Event 2", 15, 10));
    state.add_event(create_test_event("Event 3", 20, 10));
    state.add_event(create_test_event("Event 4", 25, 10));

    let start = ymd(2024, 1, 12);
    let end = ymd(2024, 1, 22);
    let events = state.events_in_range(start, end);

    assert_eq!(events.len(), 2);
}

#[test]
fn test_view_mode_changes() {
    let mut state = CalendarState::new();

    assert_eq!(state.view_mode, ViewMode::Month);

    state.set_view_mode(ViewMode::Week);
    assert_eq!(state.view_mode, ViewMode::Week);

    state.set_view_mode(ViewMode::Day);
    assert_eq!(state.view_mode, ViewMode::Day);
}

#[test]
fn test_next_period_day() {
    let mut state = CalendarState::new();
    state.current_date = ymd(2024, 1, 15);
    state.set_view_mode(ViewMode::Day);

    state.next_period();
    assert_eq!(state.current_date, ymd(2024, 1, 16));
}

#[test]
fn test_next_period_month() {
    let mut state = CalendarState::new();
    state.current_date = ymd(2024, 1, 15);
    state.set_view_mode(ViewMode::Month);

    state.next_period();
    assert_eq!(state.current_date, ymd(2024, 2, 1));
}

#[test]
fn test_next_period_year() {
    let mut state = CalendarState::new();
    state.current_date = ymd(2024, 6, 15);
    state.set_view_mode(ViewMode::Year);

    state.next_period();
    assert_eq!(state.current_date, ymd(2025, 1, 1));
}

#[test]
fn test_previous_period_day() {
    let mut state = CalendarState::new();
    state.current_date = ymd(2024, 1, 15);
    state.set_view_mode(ViewMode::Day);

    state.previous_period();
    assert_eq!(state.current_date, ymd(2024, 1, 14));
}

#[test]
fn test_previous_period_month() {
    let mut state = CalendarState::new();
    state.current_date = ymd(2024, 1, 15);
    state.set_view_mode(ViewMode::Month);

    state.previous_period();
    assert_eq!(state.current_date, ymd(2023, 12, 1));
}

#[test]
fn test_event_selection() {
    let mut state = CalendarState::new();

    state.add_event(create_test_event("Event 1", 15, 10));
    state.add_event(create_test_event("Event 2", 16, 10));
    state.add_event(create_test_event("Event 3", 17, 10));

    assert_eq!(state.selected_event_index, None);

    state.select_next_event();
    assert_eq!(state.selected_event_index, Some(0));

    state.select_next_event();
    assert_eq!(state.selected_event_index, Some(1));

    state.select_previous_event();
    assert_eq!(state.selected_event_index, Some(0));
}

#[test]
fn test_event_selection_wrapping() {
    let mut state = CalendarState::new();

    state.add_event(create_test_event("Event 1", 15, 10));
    state.add_event(create_test_event("Event 2", 16, 10));

    state.select_next_event();
    state.select_next_event();
    assert_eq!(state.selected_event_index, Some(1));

    state.select_next_event();
    assert_eq!(state.selected_event_index, Some(0));

    state.select_previous_event();
    assert_eq!(state.selected_event_index, Some(1));
}

#[test]
fn test_selected_event() {
    let mut state = CalendarState::new();

    state.add_event(create_test_event("Event 1", 15, 10));
    state.add_event(create_test_event("Event 2", 16, 10));

    assert!(state.selected_event().is_none());

    state.select_next_event();
    let selected = state.selected_event();
    assert!(selected.is_some());
    assert_eq!(selected.unwrap().title, "Event 1");
}

#[test]
fn test_event_sorting() {
    let mut state = CalendarState::new();

    state.add_event(create_test_event("Event 3", 17, 10));
    state.add_event(create_test_event("Event 1", 15, 10));
    state.add_event(create_test_event("Event 2", 16, 10));

    assert_eq!(state.events[0].title, "Event 1");
    assert_eq!(state.events[1].title, "Event 2");
    assert_eq!(state.events[2].title, "Event 3");
}

#[test]
fn test_event_count() {
    let mut state = CalendarState::new();

    assert_eq!(state.event_count(), 0);

    state.add_event(create_test_event("Event 1", 15, 10));
    assert_eq!(state.event_count(), 1);

    state.add_event(create_test_event("Event 2", 16, 10));
    assert_eq!(state.event_count(), 2);
}

#[test]
fn test_go_to_today() {
    let mut state = CalendarState::new();
    state.current_date = ymd(2020, 1, 1);

    state.go_to_today();
    let today = chrono::Local::now().date_naive();
    assert_eq!(state.current_date, ymd(today.year(), today.month(), today.day()));
}

#[test]
fn next_then_previous_period_returns_in_every_mode() {
    for mode in [ViewMode::Day, ViewMode::Week, ViewMode::Month, ViewMode::Year] {
        let mut state = CalendarState::new();
        state.current_date = ymd(2024, 3, 1);
        state.set_view_mode(mode);
        state.next_period();
        state.previous_period();
        let expected = match mode {
            ViewMode::Day | ViewMode::Week => ymd(2024, 3, 1),
            ViewMode::Month => ymd(2024, 3, 1),
            ViewMode::Year => ymd(2024, 1, 1),
        };
        assert_eq!(state.current_date, expected);
    }
}

#[test]
fn week_period_crosses_month_end() {
    let mut state = CalendarState::new();
    state.current_date = ymd(2024, 2, 26);
    state.set_view_mode(ViewMode::Week);
    state.next_period();
    assert_eq!(state.current_date, ymd(2024, 3, 4));
    state.previous_period();
    state.previous_period();
    assert_eq!(state.current_date, ymd(2024, 2, 19));
}

#[test]
fn previous_period_year_and_month_from_december() {
    let mut state = CalendarState::new();
    state.current_date = ymd(2024, 12, 31);
    state.set_view_mode(ViewMode::Month);
    state.next_period();
    assert_eq!(state.current_date, ymd(2025, 1, 1));
    state.set_view_mode(ViewMode::Year);
    state.previous_period();
    assert_eq!(state.current_date, ymd(2024, 1, 1));
}

#[test]
fn selection_on_empty_calendar_stays_none() {
    let mut state = CalendarState::new();
    state.select_next_event();
    assert_eq!(state.selected_event_index, None);
    state.select_previous_event();
    assert_eq!(state.selected_event_index, None);
    assert!(state.selected_event().is_none());
}

#[test]
fn previous_selection_from_none_takes_last() {
    let mut state = CalendarState::new();
    state.add_event(create_test_event("Event 1", 15, 10));
    state.add_event(create_test_event("Event 2", 16, 10));
    state.add_event(create_test_event("Event 3", 17, 10));
    state.select_previous_event();
    assert_eq!(state.selected_event_index, Some(2));
    assert_eq!(state.selected_event().unwrap().title, "Event 3");
}

#[test]
fn remove_undoes_add() {
    let mut state = CalendarState::new();
    state.add_event(create_test_event("Kept", 15, 10));
    let before: Vec<String> = state.events.iter().map(|e| e.title.clone()).collect();
    let event = create_test_event("Added", 14, 10);
    let id = event.id.clone();
    state.add_event(event);
    assert_eq!(state.events.len(), 2);
    let removed = state.remove_event(&id).unwrap();
    assert_eq!(removed.title, "Added");
    let after: Vec<String> = state.events.iter().map(|e| e.title.clone()).collect();
    assert_eq!(before, after);
}

#[test]
fn remove_unknown_event_changes_nothing() {
    let mut state = CalendarState::new();
    state.add_event(create_test_event("Event 1", 15, 10));
    assert!(state.remove_event("no such id").is_none());
    assert_eq!(state.events.len(), 1);
    assert!(state.get_event("no such id").is_none());
}

#[test]
fn get_event_mut_changes_the_stored_event() {
    let mut state = CalendarState::new();
    let event = create_test_event("Before", 15, 10);
    let id = event.id.clone();
    state.add_event(event);
    state.get_event_mut(&id).unwrap().title = "After".to_string();
    assert_eq!(state.get_event(&id).unwrap().title, "After");
    assert!(state.get_event_mut("no such id").is_none());
}

#[test]
fn stable_order_for_equal_starts() {
    let mut state = CalendarState::new();
    state.add_event(create_test_event("First", 15, 10));
    state.add_event(create_test_event("Second", 15, 10));
    state.add_event(create_test_event("Earlier", 15, 9));
    assert_eq!(state.events[0].title, "Earlier");
    assert_eq!(state.events[1].title, "First");
    assert_eq!(state.events[2].title, "Second");
}

#[test]
fn events_in_range_includes_both_ends() {
    let mut state = CalendarState::new();
    state.add_event(create_test_event("Start day", 12, 22));
    state.add_event(create_test_event("End day", 22, 0));
    state.add_event(create_test_event("After", 23, 0));
    let events = state.events_in_range(ymd(2024, 1, 12), ymd(2024, 1, 22));
    assert_eq!(events.len(), 2);
    assert_eq!(events[0].title, "Start day");
    assert_eq!(events[1].title, "End day");
}

#[test]
fn sort_events_orders_by_start() {
    let mut state = CalendarState::new();
    state.events.push(create_test_event("Late", 20, 10));
    state.events.push(create_test_event("Early", 10, 10));
    state.sort_events();
    assert_eq!(state.events[0].title, "Early");
    assert_eq!(state.events[1].title, "Late");
}

#[test]
fn default_calendar_is_month_view() {
    let state = CalendarState::default();
    assert_eq!(state.view_mode, ViewMode::Month);
    assert_eq!(ViewMode::default(), ViewMode::Month);
}

#[test]
fn a_clock_without_a_reading_gives_the_epoch_date() {
    assert_eq!(date_from_clock(None), ymd(1970, 1, 1));
    assert_eq!(date_from_clock(Some(ymd(2024, 2, 29))), ymd(2024, 2, 29));
    let now = chrono::Local::now().date_naive();
    assert_eq!(today(), ymd(now.year(), now.month(), now.day()));
}
