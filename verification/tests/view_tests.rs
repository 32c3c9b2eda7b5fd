use clawd_cal::calendar::CalendarState;
use clawd_cal::datetime::Date;
use clawd_cal::events::Event;
use clawd_cal::views::{DayView, MonthView, WeekView, YearView};

fn ymd(year: i32, month: u32, day: u32) -> Date {
    Date::from_ymd_opt(year, month, day).unwrap()
}

fn event_at(title: &str, day: u32, hour: u32) -> Event {
    let start = ymd(2024, 1, day).and_hms_opt(hour, 0, 0).unwrap();
    let end = ymd(2024, 1, day).and_hms_opt(hour, 30, 0).unwrap();
    Event::new(title.to_string(), start, end)
}

#[test]
fn day_view_steps_and_undoes() {
    let mut view = DayView::new();
    assert_eq!(view.selected_event_index, None);
    view.select_date(ymd(2024, 2, 28));
    view.move_to_next_day();
    assert_eq!(view.selected_date, ymd(2024, 2, 29));
    view.move_to_next_day();
    assert_eq!(view.selected_date, ymd(2024, 3, 1));
    view.move_to_prev_day();
    view.move_to_prev_day();
    assert_eq!(view.selected_date, ymd(2024, 2, 28));
    view.move_selection(-365);
    assert_eq!(view.selected_date, ymd(2023, 2, 28));
}

#[test]
fn day_view_keeps_the_date_at_the_calendar_edge() {
    let mut view = DayView::default();
    view.select_date(ymd(262142, 12, 31));
    view.move_to_next_day();
    assert_eq!(view.selected_date, ymd(262142, 12, 31));
}

#[test]
fn view_event_selection_wraps() {
    let mut view = DayView::new();
    view.select_next_event(3);
    assert_eq!(view.selected_event_index, Some(0));
    view.select_prev_event(3);
    assert_eq!(view.selected_event_index, Some(2));
    view.select_next_event(3);
    assert_eq!(view.selected_event_index, Some(0));
    view.select_next_event(0);
    assert_eq!(view.selected_event_index, None);
    view.select_prev_event(2);
    assert_eq!(view.selected_event_index, Some(1));
}

#[test]
fn month_grid_of_january_2024() {
    let view = MonthView::new();
    let days = view.get_month_days(ymd(2024, 1, 17));
    assert_eq!(days.len(), 42);
    assert_eq!(days[0], None);
    assert_eq!(days[1], Some(ymd(2024, 1, 1)));
    assert_eq!(days[31], Some(ymd(2024, 1, 31)));
    assert_eq!(days[32], None);
    assert_eq!(days.iter().filter(|d| d.is_some()).count(), 31);
}

#[test]
fn month_grid_of_september_2024_starts_on_sunday() {
    let view = MonthView::new();
    let days = view.get_month_days(ymd(2024, 9, 1));
    assert_eq!(days[0], Some(ymd(2024, 9, 1)));
    assert_eq!(days[29], Some(ymd(2024, 9, 30)));
    assert_eq!(days[30], None);
}

#[test]
fn month_lengths() {
    let view = MonthView::new();
    assert_eq!(view.days_in_month(2024, 2), 29);
    assert_eq!(view.days_in_month(2023, 2), 28);
    assert_eq!(view.days_in_month(2024, 4), 30);
    assert_eq!(view.days_in_month(2024, 12), 31);
    assert_eq!(view.month_name(1), "January");
    assert_eq!(view.month_name(12), "December");
    assert_eq!(view.month_name(13), "Unknown");
}

#[test]
fn month_view_week_moves() {
    let mut view = MonthView::new();
    view.select_date(ymd(2024, 1, 17));
    view.move_to_week_start();
    assert_eq!(view.selected_date, ymd(2024, 1, 14));
    view.move_to_week_end();
    assert_eq!(view.selected_date, ymd(2024, 1, 20));
    view.move_selection(7);
    assert_eq!(view.selected_date, ymd(2024, 1, 27));
}

#[test]
fn month_view_month_moves_clamp_the_day() {
    let mut view = MonthView::new();
    view.select_date(ymd(2024, 1, 31));
    view.move_to_next_month();
    assert_eq!(view.selected_date, ymd(2024, 2, 29));
    view.move_to_prev_month();
    assert_eq!(view.selected_date, ymd(2024, 1, 29));
    view.select_date(ymd(2024, 12, 15));
    view.move_to_next_month();
    assert_eq!(view.selected_date, ymd(2025, 1, 15));
    view.move_to_prev_month();
    view.move_to_prev_month();
    assert_eq!(view.selected_date, ymd(2024, 11, 15));
}

#[test]
fn month_view_selected_event_id() {
    let mut state = CalendarState::new();
    let first = event_at("First", 15, 9);
    let second = event_at("Second", 15, 14);
    let second_id = second.id.clone();
    state.add_event(first);
    state.add_event(second);
    state.add_event(event_at("Other day", 16, 9));
    let mut view = MonthView::new();
    view.select_date(ymd(2024, 1, 15));
    assert_eq!(view.get_selected_event_id(&state), None);
    view.select_prev_event(2);
    assert_eq!(view.get_selected_event_id(&state), Some(second_id));
    view.selected_event_index = Some(5);
    assert_eq!(view.get_selected_event_id(&state), None);
    view.clear_event_selection();
    assert_eq!(view.selected_event_index, None);
}

#[test]
fn week_days_run_from_sunday() {
    let view = WeekView::new();
    let days = view.get_week_days(ymd(2024, 1, 17));
    assert_eq!(days.len(), 7);
    assert_eq!(days[0], ymd(2024, 1, 14));
    assert_eq!(days[6], ymd(2024, 1, 20));
    let days = view.get_week_days(ymd(2024, 3, 2));
    assert_eq!(days[0], ymd(2024, 2, 25));
    assert_eq!(days[4], ymd(2024, 2, 29));
    assert_eq!(days[6], ymd(2024, 3, 2));
}

#[test]
fn week_range_text() {
    let mut view = WeekView::default();
    view.select_date(ymd(2024, 1, 17));
    assert_eq!(view.week_range_string(), "Jan 14 - Jan 20, 2024");
    view.select_date(ymd(2024, 12, 31));
    assert_eq!(view.week_range_string(), "Dec 29 - Jan 04, 2025");
}

#[test]
fn week_moves_undo_each_other() {
    let mut view = WeekView::new();
    view.select_date(ymd(2024, 2, 26));
    view.move_to_next_week();
    assert_eq!(view.selected_date, ymd(2024, 3, 4));
    view.move_to_prev_week();
    assert_eq!(view.selected_date, ymd(2024, 2, 26));
    view.move_selection(-1);
    assert_eq!(view.selected_date, ymd(2024, 2, 25));
    view.select_next_event(1);
    view.select_next_event(1);
    assert_eq!(view.selected_event_index, Some(0));
    view.select_prev_event(0);
    assert_eq!(view.selected_event_index, None);
}

#[test]
fn time_blocks_split_the_day() {
    let mut state = CalendarState::new();
    state.add_event(event_at("Early", 15, 5));
    state.add_event(event_at("Morning", 15, 6));
    state.add_event(event_at("Late morning", 15, 11));
    state.add_event(event_at("Noon", 15, 12));
    state.add_event(event_at("Afternoon", 15, 15));
    state.add_event(event_at("Evening", 15, 18));
    state.add_event(event_at("Night", 15, 23));
    state.add_event(event_at("Next day", 16, 8));
    let view = WeekView::new();
    let titles = |block: usize| -> Vec<String> {
        view.events_in_time_block(&state, ymd(2024, 1, 15), block).iter().map(|e| e.title.clone()).collect()
    };
    assert_eq!(titles(0), vec!["Morning", "Late morning"]);
    assert_eq!(titles(1), vec!["Noon"]);
    assert_eq!(titles(2), vec!["Afternoon"]);
    assert_eq!(titles(3), vec!["Evening", "Night"]);
}

#[test]
fn year_view_month_selection() {
    let mut view = YearView::new();
    assert_eq!(view.selected_month_index, 0);
    view.selected_date = ymd(2024, 6, 15);
    view.select_month(1);
    assert_eq!(view.selected_date, ymd(2024, 2, 1));
    assert_eq!(view.selected_month_index, 1);
    view.move_selection(1);
    assert_eq!(view.selected_month_index, 2);
    assert_eq!(view.selected_date, ymd(2024, 3, 1));
    view.move_selection(-1);
    view.move_selection(-1);
    view.move_selection(-1);
    assert_eq!(view.selected_month_index, 0);
    assert_eq!(view.selected_date, ymd(2024, 1, 1));
    view.select_month(11);
    view.move_selection(1);
    assert_eq!(view.selected_month_index, 11);
    assert_eq!(view.selected_date, ymd(2024, 12, 1));
    view.select_month(12);
    assert_eq!(view.selected_month_index, 12);
    assert_eq!(view.selected_date, ymd(2024, 12, 1));
}

#[test]
fn year_view_year_moves_and_names() {
    let mut view = YearView::default();
    view.selected_date = ymd(2024, 6, 15);
    view.selected_month_index = 5;
    view.move_to_next_year();
    assert_eq!(view.selected_date, ymd(2025, 1, 1));
    assert_eq!(view.selected_month_index, 0);
    view.move_to_prev_year();
    view.move_to_prev_year();
    assert_eq!(view.selected_date, ymd(2023, 1, 1));
    assert_eq!(view.month_name(0), "Jan");
    assert_eq!(view.month_name(11), "Dec");
    assert_eq!(view.month_name(12), "???");
}

#[test]
fn year_view_jumps_to_this_month() {
    let mut view = YearView::new();
    view.jump_to_today();
    assert_eq!(view.selected_date.day, 1);
    assert_eq!(view.selected_month_index as u32, view.selected_date.month - 1);
}

#[test]
fn day_view_events_in_an_hour() {
    let mut state = CalendarState::new();
    state.add_event(event_at("Nine", 15, 9));
    state.add_event(event_at("Ten", 15, 10));
    state.add_event(event_at("Also nine", 15, 9));
    state.add_event(event_at("Other day", 16, 9));
    let mut view = DayView::new();
    view.select_date(ymd(2024, 1, 15));
    let titles: Vec<String> = view.events_in_hour(&state, 9).iter().map(|e| e.title.clone()).collect();
    assert_eq!(titles, vec!["Nine", "Also nine"]);
    assert!(view.events_in_hour(&state, 11).is_empty());
}

#[test]
fn year_view_counts_events_per_month() {
    let mut state = CalendarState::new();
    state.add_event(event_at("January", 15, 9));
    state.add_event(event_at("Also January", 31, 9));
    let feb = ymd(2024, 2, 1).and_hms_opt(8, 0, 0).unwrap();
    state.add_event(Event::new("First of February".to_string(), feb, feb));
    let mut view = YearView::new();
    view.selected_date = ymd(2024, 5, 5);
    assert_eq!(view.month_event_count(&state, 0), 3);
    assert_eq!(view.month_event_count(&state, 1), 1);
    assert_eq!(view.month_event_count(&state, 11), 0);
}
