use clawd_cal::datetime::Date;
use clawd_cal::events::{Category, Event};
use clawd_cal::modal::{EventModal, Key, ModalAction, ModalField, VimMode};

#[test]
fn test_modal_creation() {
    let modal = EventModal::new();
    assert!(!modal.active);
    assert_eq!(modal.vim_mode, VimMode::Insert);
}

#[test]
fn test_modal_open() {
    let mut modal = EventModal::new();
    let date = Date::from_ymd_opt(2024, 1, 15).unwrap();
    modal.open(date);

    assert!(modal.active);
    assert_eq!(modal.date_input, "2024-01-15");
    assert_eq!(modal.time_input, "09:00");
}

#[test]
fn test_field_navigation() {
    let mut modal = EventModal::new();
    assert_eq!(modal.focused_field, ModalField::Title);

    modal.next_field();
    assert_eq!(modal.focused_field, ModalField::Date);

    modal.next_field();
    assert_eq!(modal.focused_field, ModalField::Time);

    modal.prev_field();
    assert_eq!(modal.focused_field, ModalField::Date);
}

#[test]
fn test_vim_mode_transitions() {
    let mut modal = EventModal::new();
    modal.vim_mode = VimMode::Normal;

    modal.handle_key(Key::Char('i'));
    assert_eq!(modal.vim_mode, VimMode::Insert);

    modal.handle_key(Key::Esc);
    assert_eq!(modal.vim_mode, VimMode::Normal);

    modal.handle_key(Key::Char(':'));
    assert_eq!(modal.vim_mode, VimMode::Command);
}

#[test]
fn test_text_insertion() {
    let mut modal = EventModal::new();
    modal.vim_mode = VimMode::Insert;
    modal.focused_field = ModalField::Title;

    modal.handle_key(Key::Char('T'));
    modal.handle_key(Key::Char('e'));
    modal.handle_key(Key::Char('s'));
    modal.handle_key(Key::Char('t'));

    assert_eq!(modal.title, "Test");
    assert_eq!(modal.cursor_pos, 4);
}

#[test]
fn test_backspace() {
    let mut modal = EventModal::new();
    modal.vim_mode = VimMode::Insert;
    modal.title = String::from("Test");
    modal.cursor_pos = 4;

    modal.handle_key(Key::Backspace);
    assert_eq!(modal.title, "Tes");
    assert_eq!(modal.cursor_pos, 3);
}

#[test]
fn test_command_execution() {
    let mut modal = EventModal::new();
    modal.vim_mode = VimMode::Command;

    modal.command_buffer = String::from("w");
    let action = modal.execute_command();
    assert_eq!(action, ModalAction::Save);

    modal.command_buffer = String::from("q");
    let action = modal.execute_command();
    assert_eq!(action, ModalAction::Cancel);
}

#[test]
fn test_event_validation() {
    let mut modal = EventModal::new();
    modal.title = String::from("Test Event");
    modal.date_input = String::from("2024-01-15");
    modal.time_input = String::from("10:00");
    modal.duration_input = String::from("60");

    let result = modal.validate_and_create_event();
    assert!(result.is_ok());

    let event_data = result.unwrap();
    assert_eq!(event_data.title, "Test Event");
}

#[test]
fn test_event_validation_empty_title() {
    let mut modal = EventModal::new();
    modal.title = String::from("");
    modal.date_input = String::from("2024-01-15");
    modal.time_input = String::from("10:00");

    let result = modal.validate_and_create_event();
    assert!(result.is_err());
}

#[test]
fn test_event_validation_invalid_date() {
    let mut modal = EventModal::new();
    modal.title = String::from("Test");
    modal.date_input = String::from("invalid");
    modal.time_input = String::from("10:00");

    let result = modal.validate_and_create_event();
    assert!(result.is_err());
}

fn filled_modal() -> EventModal {
    let mut modal = EventModal::new();
    modal.title = String::from("Standup");
    modal.date_input = String::from("2024-01-31");
    modal.time_input = String::from("23:30");
    modal.duration_input = String::from("45");
    modal
}

#[test]
fn validation_computes_the_end_across_midnight() {
    let data = filled_modal().validate_and_create_event().unwrap();
    assert_eq!(data.start_time, Date::from_ymd_opt(2024, 1, 31).unwrap().and_hms_opt(23, 30, 0).unwrap());
    assert_eq!(data.end_time, Date::from_ymd_opt(2024, 2, 1).unwrap().and_hms_opt(0, 15, 0).unwrap());
    assert_eq!(data.category, None);
    assert_eq!(data.description, None);
}

#[test]
fn validation_errors_in_order() {
    let mut modal = filled_modal();
    modal.title = String::from("   ");
    assert_eq!(modal.validate_and_create_event().unwrap_err(), "Title is required");

    let mut modal = filled_modal();
    modal.date_input = String::from("2024-02-30");
    assert_eq!(modal.validate_and_create_event().unwrap_err(), "Invalid date format (use YYYY-MM-DD)");

    let mut modal = filled_modal();
    modal.time_input = String::from("25:00");
    assert_eq!(modal.validate_and_create_event().unwrap_err(), "Invalid time format (use HH:MM)");

    let mut modal = filled_modal();
    modal.duration_input = String::from("an hour");
    assert_eq!(
        modal.validate_and_create_event().unwrap_err(),
        "Invalid duration (must be a number in minutes)"
    );

    let mut modal = filled_modal();
    modal.duration_input = String::from("0");
    assert_eq!(modal.validate_and_create_event().unwrap_err(), "Duration must be positive");

    let mut modal = filled_modal();
    modal.duration_input = String::from("-5");
    assert_eq!(modal.validate_and_create_event().unwrap_err(), "Duration must be positive");
}

#[test]
fn validation_keeps_category_and_description_unless_blank() {
    let mut modal = filled_modal();
    modal.category_input = String::from("Work");
    modal.description = String::from("  ");
    let data = modal.validate_and_create_event().unwrap();
    assert_eq!(data.category, Some(String::from("Work")));
    assert_eq!(data.description, None);
}

#[test]
fn checked_validation_refuses_an_end_past_the_calendar() {
    let mut modal = filled_modal();
    modal.date_input = String::from("+262142-12-31");
    modal.duration_input = String::from("60");
    assert!(modal.checked_validate_and_create_event().is_none());
    let modal = filled_modal();
    let checked = modal.checked_validate_and_create_event().unwrap();
    assert_eq!(checked.unwrap().title, "Standup");
    let mut blank = filled_modal();
    blank.title = String::new();
    assert_eq!(blank.checked_validate_and_create_event().unwrap().unwrap_err(), "Title is required");
}

#[test]
fn backspace_undoes_typing_a_wide_character() {
    let mut modal = EventModal::new();
    modal.title = String::from("ab");
    modal.cursor_pos = 1;
    modal.handle_key(Key::Char('é'));
    assert_eq!(modal.title, "aéb");
    assert_eq!(modal.cursor_pos, 2);
    modal.handle_key(Key::Backspace);
    assert_eq!(modal.title, "ab");
    assert_eq!(modal.cursor_pos, 1);
}

#[test]
fn six_tabs_come_back_to_the_title() {
    let mut modal = EventModal::new();
    let order = [
        ModalField::Date,
        ModalField::Time,
        ModalField::Duration,
        ModalField::Category,
        ModalField::Description,
        ModalField::Title,
    ];
    for field in order {
        modal.handle_key(Key::Tab);
        assert_eq!(modal.focused_field, field);
    }
    modal.handle_key(Key::BackTab);
    assert_eq!(modal.focused_field, ModalField::Description);
}

#[test]
fn focus_moves_put_the_cursor_at_the_end() {
    let mut modal = EventModal::new();
    modal.date_input = String::from("2024-01-15");
    modal.next_field();
    assert_eq!(modal.cursor_pos, 10);
    assert_eq!(modal.current_field_content(), "2024-01-15");
}

#[test]
fn normal_mode_motions_and_deletions() {
    let mut modal = EventModal::new();
    modal.title = String::from("abc");
    modal.vim_mode = VimMode::Normal;
    modal.cursor_pos = 3;
    modal.handle_key(Key::Char('0'));
    assert_eq!(modal.cursor_pos, 0);
    modal.handle_key(Key::Char('l'));
    assert_eq!(modal.cursor_pos, 1);
    modal.handle_key(Key::Char('$'));
    assert_eq!(modal.cursor_pos, 2);
    modal.handle_key(Key::Char('x'));
    assert_eq!(modal.title, "ab");
    assert_eq!(modal.cursor_pos, 1);
    modal.handle_key(Key::Char('d'));
    assert_eq!(modal.title, "");
    assert_eq!(modal.cursor_pos, 0);
    assert_eq!(modal.handle_key(Key::Esc), ModalAction::Cancel);
}

#[test]
fn normal_mode_insert_commands() {
    let mut modal = EventModal::new();
    modal.title = String::from("abc");
    modal.vim_mode = VimMode::Normal;
    modal.cursor_pos = 1;
    modal.handle_key(Key::Char('a'));
    assert_eq!(modal.vim_mode, VimMode::Insert);
    assert_eq!(modal.cursor_pos, 2);
    modal.vim_mode = VimMode::Normal;
    modal.handle_key(Key::Char('A'));
    assert_eq!(modal.cursor_pos, 3);
    modal.vim_mode = VimMode::Normal;
    modal.handle_key(Key::Char('I'));
    assert_eq!(modal.cursor_pos, 0);
    modal.handle_key(Key::Esc);
    assert_eq!(modal.vim_mode, VimMode::Normal);
    assert_eq!(modal.cursor_pos, 0);
}

#[test]
fn command_line_typing_and_enter() {
    let mut modal = EventModal::new();
    modal.vim_mode = VimMode::Normal;
    modal.handle_key(Key::Char(':'));
    modal.handle_key(Key::Char('w'));
    modal.handle_key(Key::Char('q'));
    assert_eq!(modal.command_buffer, "wq");
    modal.handle_key(Key::Backspace);
    assert_eq!(modal.command_buffer, "w");
    assert_eq!(modal.handle_key(Key::Enter), ModalAction::Save);
    assert_eq!(modal.vim_mode, VimMode::Normal);
    assert_eq!(modal.command_buffer, "");
    modal.handle_key(Key::Char(':'));
    modal.handle_key(Key::Char('x'));
    assert_eq!(modal.handle_key(Key::Enter), ModalAction::Nothing);
    modal.command_buffer = String::from("q!");
    assert_eq!(modal.execute_command(), ModalAction::Cancel);
}

#[test]
fn insert_mode_delete_and_arrows() {
    let mut modal = EventModal::new();
    modal.title = String::from("abc");
    modal.cursor_pos = 0;
    modal.handle_key(Key::Delete);
    assert_eq!(modal.title, "bc");
    modal.handle_key(Key::Right);
    modal.handle_key(Key::Right);
    modal.handle_key(Key::Right);
    assert_eq!(modal.cursor_pos, 2);
    modal.handle_key(Key::Left);
    assert_eq!(modal.cursor_pos, 1);
    modal.handle_key(Key::Backspace);
    assert_eq!(modal.title, "c");
    assert_eq!(modal.cursor_pos, 0);
    modal.handle_key(Key::Backspace);
    assert_eq!(modal.title, "c");
}

#[test]
fn edit_form_shows_the_event() {
    let start = Date::from_ymd_opt(2024, 3, 5).unwrap().and_hms_opt(14, 5, 0).unwrap();
    let end = Date::from_ymd_opt(2024, 3, 5).unwrap().and_hms_opt(15, 35, 0).unwrap();
    let event = Event::new("Review".to_string(), start, end)
        .with_category(Category::new("Work".to_string()))
        .with_description("Quarterly".to_string());
    let mut modal = EventModal::new();
    modal.open_for_edit(&event);
    assert!(modal.active);
    assert!(modal.is_editing());
    assert_eq!(modal.title, "Review");
    assert_eq!(modal.date_input, "2024-03-05");
    assert_eq!(modal.time_input, "14:05");
    assert_eq!(modal.duration_input, "90");
    assert_eq!(modal.category_input, "Work");
    assert_eq!(modal.description, "Quarterly");
    assert_eq!(modal.editing_event_id, Some(event.id.clone()));
}

#[test]
fn close_clears_the_form() {
    let mut modal = filled_modal();
    modal.open(Date::from_ymd_opt(2024, 1, 15).unwrap());
    modal.command_buffer = String::from("w");
    modal.close();
    assert!(!modal.active);
    assert!(!modal.is_editing());
    assert_eq!(modal.title, "");
    assert_eq!(modal.date_input, "");
    assert_eq!(modal.time_input, "");
    assert_eq!(modal.duration_input, "60");
    assert_eq!(modal.command_buffer, "");
    assert_eq!(modal.cursor_pos, 0);
}

#[test]
fn open_keeps_title_and_resets_focus() {
    let mut modal = filled_modal();
    modal.focused_field = ModalField::Description;
    modal.vim_mode = VimMode::Command;
    modal.open(Date::from_ymd_opt(2024, 1, 15).unwrap());
    assert_eq!(modal.title, "Standup");
    assert_eq!(modal.focused_field, ModalField::Title);
    assert_eq!(modal.vim_mode, VimMode::Insert);
    assert_eq!(modal.editing_event_id, None);
}

#[test]
fn current_field_content_mut_edits_the_focused_field() {
    let mut modal = EventModal::default();
    modal.focused_field = ModalField::Category;
    modal.current_field_content_mut().push_str("Travel");
    assert_eq!(modal.category_input, "Travel");
    assert_eq!(modal.current_field_content(), "Travel");
}

#[test]
fn editing_an_event_and_checking_the_form_gives_it_back() {
    let start = Date::from_ymd_opt(2024, 3, 5).unwrap().and_hms_opt(23, 15, 0).unwrap();
    let end = Date::from_ymd_opt(2024, 3, 6).unwrap().and_hms_opt(1, 0, 0).unwrap();
    let event = Event::new("Night shift".to_string(), start, end)
        .with_category(Category::new(" \t".to_string()))
        .with_description("Bring keys".to_string());
    let mut modal = EventModal::new();
    modal.open_for_edit(&event);
    let data = modal.validate_and_create_event().unwrap();
    assert_eq!(data.title, "Night shift");
    assert_eq!(data.start_time, start);
    assert_eq!(data.end_time, end);
    assert_eq!(data.category, None);
    assert_eq!(data.description, Some("Bring keys".to_string()));
}

#[test]
fn white_space_only_title_is_blank() {
    let mut modal = EventModal::new();
    modal.title = String::from("\u{3000} \n");
    modal.date_input = String::from("2024-01-15");
    modal.time_input = String::from("10:00");
    assert_eq!(modal.validate_and_create_event().unwrap_err(), "Title is required");
}
