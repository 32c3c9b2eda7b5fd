use clawd_cal::calendar::{CalendarState, ViewMode};
use clawd_cal::datetime::Date;
use clawd_cal::modal::Key;
use clawd_cal::ui::{
    category_color, color_for_lowercase_name, event_count_text, more_events_line, predefined_categories, App,
    CategoryColor, HelpView, InputMode, StatusBar,
};

fn ymd(year: i32, month: u32, day: u32) -> Date {
    Date::from_ymd_opt(year, month, day).unwrap()
}

#[test]
fn test_category_color_work() {
    assert_eq!(category_color("work"), CategoryColor::Blue);
    assert_eq!(category_color("Work"), CategoryColor::Blue);
    assert_eq!(category_color("WORK"), CategoryColor::Blue);
}

#[test]
fn test_category_color_personal() {
    assert_eq!(category_color("personal"), CategoryColor::Green);
}

#[test]
fn test_category_color_meeting() {
    assert_eq!(category_color("meeting"), CategoryColor::Yellow);
}

#[test]
fn test_category_color_default() {
    assert_eq!(category_color("unknown"), CategoryColor::Gray);
    assert_eq!(category_color("random"), CategoryColor::Gray);
}

#[test]
fn test_predefined_categories() {
    let categories = predefined_categories();
    assert!(categories.contains(&"Work"));
    assert!(categories.contains(&"Personal"));
    assert!(categories.contains(&"Meeting"));
    assert_eq!(categories.len(), 10);
}

#[test]
fn every_predefined_category_has_its_own_colour() {
    let expected = [
        CategoryColor::Blue,
        CategoryColor::Green,
        CategoryColor::Yellow,
        CategoryColor::Magenta,
        CategoryColor::Cyan,
        CategoryColor::LightCyan,
        CategoryColor::LightRed,
        CategoryColor::LightYellow,
        CategoryColor::LightGreen,
        CategoryColor::Red,
    ];
    let categories = predefined_categories();
    for (name, colour) in categories.iter().zip(expected.iter()) {
        assert_eq!(category_color(name), *colour);
    }
    assert_eq!(categories[9], "Exercise");
}

#[test]
fn lowercase_names_only_match_exactly() {
    assert_eq!(color_for_lowercase_name("travel"), CategoryColor::LightGreen);
    assert_eq!(color_for_lowercase_name("Travel"), CategoryColor::Gray);
    assert_eq!(color_for_lowercase_name(" travel"), CategoryColor::Gray);
    assert_eq!(category_color("BirthDay"), CategoryColor::LightRed);
}

#[test]
fn help_view_toggles() {
    let mut help = HelpView::new();
    assert!(!help.active);
    help.toggle();
    assert!(help.active);
    help.toggle();
    assert!(!help.active);
    assert!(!HelpView::default().active);
}

#[test]
fn help_view_area_is_centred() {
    let help = HelpView::new();
    assert_eq!(help.modal_area(100, 50), (15, 5, 70, 40));
    assert_eq!(help.modal_area(60, 30), (2, 2, 56, 26));
    assert_eq!(help.modal_area(10, 3), (2, 1, 6, 0));
}

#[test]
fn status_bar_texts() {
    let bar = StatusBar::new();
    assert_eq!(bar.height, 2);
    assert_eq!(StatusBar::default().height, 2);
    assert_eq!(bar.event_count_text(0), "0 events");
    assert_eq!(bar.event_count_text(1), "1 event");
    assert_eq!(bar.event_count_text(12), "12 events");
    assert_eq!(bar.view_name(ViewMode::Week), "Week");
    assert_eq!(bar.mode_text(InputMode::DatePrompt), "GOTO");
    assert_eq!(bar.hints(InputMode::DeleteConfirmation), "y: confirm | n/Esc: cancel");
    assert_eq!(bar.mode_text(InputMode::Normal), "NORMAL");
}

#[test]
fn app_quits_on_q_and_esc() {
    let mut app = App::new();
    assert!(!app.should_quit);
    app.handle_key(Key::Char('x'));
    assert!(!app.should_quit);
    app.handle_key(Key::Char('q'));
    assert!(app.should_quit);
    let mut app = App::default();
    app.handle_key(Key::Esc);
    assert!(app.should_quit);
}

#[test]
fn app_moves_the_selected_day() {
    let mut app = App::new();
    app.month_view.select_date(ymd(2024, 1, 15));
    app.handle_key(Key::Right);
    assert_eq!(app.month_view.selected_date, ymd(2024, 1, 16));
    app.handle_key(Key::Char('h'));
    assert_eq!(app.month_view.selected_date, ymd(2024, 1, 15));
    app.handle_key(Key::Down);
    assert_eq!(app.month_view.selected_date, ymd(2024, 1, 22));
    app.handle_key(Key::Char('k'));
    assert_eq!(app.month_view.selected_date, ymd(2024, 1, 15));
}

#[test]
fn app_moves_the_calendar_period_and_back_to_today() {
    let mut app = App::new();
    app.state = CalendarState::new();
    app.state.current_date = ymd(2024, 1, 15);
    app.handle_key(Key::Char('n'));
    assert_eq!(app.state.current_date, ymd(2024, 2, 1));
    app.handle_key(Key::Char('p'));
    assert_eq!(app.state.current_date, ymd(2024, 1, 1));
    app.month_view.select_date(ymd(2000, 1, 1));
    app.handle_key(Key::Char('t'));
    assert_eq!(app.month_view.selected_date, app.state.current_date);
    assert_ne!(app.state.current_date, ymd(2024, 1, 1));
}

#[test]
fn long_texts_are_shortened() {
    assert_eq!(clawd_cal::ui::shortened("short", 15, 12), "short");
    assert_eq!(clawd_cal::ui::shortened("exactly fifteen", 15, 12), "exactly fifteen");
    assert_eq!(clawd_cal::ui::shortened("a title that is too long", 15, 12), "a title that...");
    assert_eq!(clawd_cal::ui::shortened("ééééééééé", 15, 12), "éééééé...");
}

#[test]
fn predefined_categories_have_distinct_colours() {
    let categories = predefined_categories();
    let colours: Vec<CategoryColor> = categories.iter().map(|n| category_color(n)).collect();
    for (i, a) in colours.iter().enumerate() {
        assert_ne!(*a, CategoryColor::Gray);
        for b in colours.iter().skip(i + 1) {
            assert_ne!(a, b);
        }
    }
    assert_eq!(category_color("hOLIDAY"), CategoryColor::LightYellow);
}

#[test]
fn overflow_line_counts_the_events_left_out() {
    assert_eq!(more_events_line(5, 2), Some("  +3 more".to_string()));
    assert_eq!(more_events_line(3, 2), Some("  +1 more".to_string()));
    assert_eq!(more_events_line(2, 2), None);
    assert_eq!(more_events_line(0, 3), None);
}

#[test]
fn year_view_count_text() {
    assert_eq!(event_count_text(0), "");
    assert_eq!(event_count_text(7), " (7)");
    assert_eq!(event_count_text(12), " (12)");
}
