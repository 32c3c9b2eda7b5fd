//! Category colours, the help overlay, the status bar and the application's key handling.
use crate::calendar::{CalendarState, ViewMode};
use crate::datetime::{day_number_in_range, lemma_day_number_injective, Date, MAX_YEAR, MIN_YEAR};
use crate::modal::Key;
use crate::text::{
    ascii_lowercase, decimal_text, is_ascii_text, lowercase_text, str_equal, string_push, string_push_str, to_lowercase, usize_text, utf8,
};
use crate::views::{shifted_or_same, MonthView};
use vstd::prelude::*;
use vstd::string::StringSliceAdditionalSpecFns;
use vstd::utf8::is_char_boundary;

verus! {

/// The colour that events of a category are drawn in.
#[derive(Clone, Copy, Debug, PartialEq, Eq, Structural)]
pub enum CategoryColor {
    Blue,
    Green,
    Yellow,
    Magenta,
    Cyan,
    LightCyan,
    LightRed,
    LightYellow,
    LightGreen,
    Red,
    Gray,
}

/// The colour of a category whose name, in lower case, is `lower`: one for each predefined
/// category, gray for any other.
pub open spec fn color_of_lowercase(lower: Seq<char>) -> CategoryColor {
    if lower == "work"@ {
        CategoryColor::Blue
    } else if lower == "personal"@ {
        CategoryColor::Green
    } else if lower == "meeting"@ {
        CategoryColor::Yellow
    } else if lower == "reminder"@ {
        CategoryColor::Magenta
    } else if lower == "appointment"@ {
        CategoryColor::Cyan
    } else if lower == "task"@ {
        CategoryColor::LightCyan
    } else if lower == "birthday"@ {
        CategoryColor::LightRed
    } else if lower == "holiday"@ {
        CategoryColor::LightYellow
    } else if lower == "travel"@ {
        CategoryColor::LightGreen
    } else if lower == "exercise"@ {
        CategoryColor::Red
    } else {
        CategoryColor::Gray
    }
}

/// The colour for a category name that is already in lower case.
pub fn color_for_lowercase_name(lower: &str) -> (r: CategoryColor)
    ensures
        r == color_of_lowercase(lower@),
{
    if str_equal(lower, "work") {
        CategoryColor::Blue
    } else if str_equal(lower, "personal") {
        CategoryColor::Green
    } else if str_equal(lower, "meeting") {
        CategoryColor::Yellow
    } else if str_equal(lower, "reminder") {
        CategoryColor::Magenta
    } else if str_equal(lower, "appointment") {
        CategoryColor::Cyan
    } else if str_equal(lower, "task") {
        CategoryColor::LightCyan
    } else if str_equal(lower, "birthday") {
        CategoryColor::LightRed
    } else if str_equal(lower, "holiday") {
        CategoryColor::LightYellow
    } else if str_equal(lower, "travel") {
        CategoryColor::LightGreen
    } else if str_equal(lower, "exercise") {
        CategoryColor::Red
    } else {
        CategoryColor::Gray
    }
}

/// The colour of a category, whatever the case of its name.
pub fn category_color(name: &str) -> (r: CategoryColor)
    ensures
        r == color_of_lowercase(lowercase_text(name@)),
        is_ascii_text(name@) ==> r == color_of_lowercase(ascii_lowercase(name@)),
{
    let lower = to_lowercase(name);
    color_for_lowercase_name(lower.as_str())
}

/// The names of the predefined categories, in the order they are offered.
pub open spec fn predefined_category_names() -> Seq<Seq<char>> {
    seq![
        "Work"@,
        "Personal"@,
        "Meeting"@,
        "Reminder"@,
        "Appointment"@,
        "Task"@,
        "Birthday"@,
        "Holiday"@,
        "Travel"@,
        "Exercise"@,
    ]
}

/// The predefined category names.
pub fn predefined_categories() -> (r: Vec<&'static str>)
    ensures
        r@.map_values(|s: &'static str| s@) == predefined_category_names(),
{
    let mut r: Vec<&'static str> = Vec::new();
    r.push("Work");
    r.push("Personal");
    r.push("Meeting");
    r.push("Reminder");
    r.push("Appointment");
    r.push("Task");
    r.push("Birthday");
    r.push("Holiday");
    r.push("Travel");
    r.push("Exercise");
    assert(r@.map_values(|s: &'static str| s@) =~= predefined_category_names());
    r
}

/// `r` is `text` as a panel shows it: when `text` is longer than `max` bytes, its first `keep`
/// bytes followed by `...`; otherwise `text` itself.
pub open spec fn shortened_text(text: Seq<char>, max: int, keep: int, r: Seq<char>) -> bool {
    if utf8(text).len() > max {
        exists|head: Seq<char>| utf8(head) == utf8(text).take(keep) && r == head + "..."@
    } else {
        r == text
    }
}

/// Shortens a text for a panel: past `max` bytes it keeps `keep` bytes and adds `...`.
/// The cut must fall between characters.
pub fn shortened(text: &str, max: usize, keep: usize) -> (r: String)
    requires
        utf8(text@).len() > max ==> keep <= utf8(text@).len() && is_char_boundary(utf8(text@), keep as int),
    ensures
        shortened_text(text@, max as int, keep as int, r@),
{
    if text.as_bytes().len() > max {
        let (head, _) = text.split_at(keep);
        let mut r = head.to_owned();
        string_push_str(&mut r, "...");
        assert(head.spec_bytes() == text.spec_bytes().subrange(0, keep as int));
        assert(utf8(head@) == utf8(text@).take(keep as int));
        assert(r@ == head@ + "..."@);
        assert(shortened_text(text@, max as int, keep as int, r@)) by {
            let h = head@;
            assert(utf8(h) == utf8(text@).take(keep as int) && r@ == h + "..."@);
        }
        r
    } else {
        text.to_owned()
    }
}

/// The line under the first `shown` of `count` events in a slot: `  +N more` for the `N` events
/// left out, and no line when all are shown.
pub fn more_events_line(count: usize, shown: usize) -> (r: Option<String>)
    ensures
        count > shown ==> (r matches Some(s) && s@ == "  +"@ + decimal_text((count - shown) as nat) + " more"@),
        count <= shown ==> r is None,
{
    if count > shown {
        let mut s = "  +".to_owned();
        let n = usize_text(count - shown);
        string_push_str(&mut s, n.as_str());
        string_push_str(&mut s, " more");
        Some(s)
    } else {
        None
    }
}

/// The count under a month's name in the year view: ` (N)` for `N` events, nothing for none.
pub fn event_count_text(count: usize) -> (r: String)
    ensures
        count > 0 ==> r@ == " ("@ + decimal_text(count as nat) + ")"@,
        count == 0 ==> r@ == Seq::<char>::empty(),
{
    if count > 0 {
        let mut s = " (".to_owned();
        let n = usize_text(count);
        string_push_str(&mut s, n.as_str());
        string_push_str(&mut s, ")");
        s
    } else {
        String::new()
    }
}

/// The ten predefined category names are different, each is ASCII, and each has a colour of its
/// own, whatever the case it is written in: none gray, no two the same.
pub proof fn law_predefined_colors()
    ensures
        forall|i: int, j: int| 0 <= i < j < 10 ==> predefined_category_names()[i] != predefined_category_names()[j],
        forall|i: int| 0 <= i < 10 ==> is_ascii_text(#[trigger] predefined_category_names()[i]),
        forall|i: int| 0 <= i < 10 ==> color_of_lowercase(ascii_lowercase(#[trigger] predefined_category_names()[i]))
            != CategoryColor::Gray,
        forall|i: int, j: int| 0 <= i < j < 10 ==> color_of_lowercase(ascii_lowercase(predefined_category_names()[i]))
            != color_of_lowercase(ascii_lowercase(predefined_category_names()[j])),
{
    reveal_strlit("Work");
    reveal_strlit("Personal");
    reveal_strlit("Meeting");
    reveal_strlit("Reminder");
    reveal_strlit("Appointment");
    reveal_strlit("Task");
    reveal_strlit("Birthday");
    reveal_strlit("Holiday");
    reveal_strlit("Travel");
    reveal_strlit("Exercise");
    reveal_strlit("work");
    reveal_strlit("personal");
    reveal_strlit("meeting");
    reveal_strlit("reminder");
    reveal_strlit("appointment");
    reveal_strlit("task");
    reveal_strlit("birthday");
    reveal_strlit("holiday");
    reveal_strlit("travel");
    reveal_strlit("exercise");
    let n = predefined_category_names();
    assert(ascii_lowercase(n[0]) =~= "work"@);
    assert(ascii_lowercase(n[1]) =~= "personal"@);
    assert(ascii_lowercase(n[2]) =~= "meeting"@);
    assert(ascii_lowercase(n[3]) =~= "reminder"@);
    assert(ascii_lowercase(n[4]) =~= "appointment"@);
    assert(ascii_lowercase(n[5]) =~= "task"@);
    assert(ascii_lowercase(n[6]) =~= "birthday"@);
    assert(ascii_lowercase(n[7]) =~= "holiday"@);
    assert(ascii_lowercase(n[8]) =~= "travel"@);
    assert(ascii_lowercase(n[9]) =~= "exercise"@);
    assert("work"@[0] == 'w' && "personal"@[0] == 'p' && "meeting"@[0] == 'm' && "reminder"@[0] == 'r');
    assert("appointment"@[0] == 'a' && "task"@[0] == 't' && "birthday"@[0] == 'b' && "holiday"@[0] == 'h');
    assert("travel"@[0] == 't' && "exercise"@[0] == 'e' && "task"@.len() == 4 && "travel"@.len() == 6);
    assert(color_of_lowercase(ascii_lowercase(n[0])) == CategoryColor::Blue);
    assert(color_of_lowercase(ascii_lowercase(n[1])) == CategoryColor::Green);
    assert(color_of_lowercase(ascii_lowercase(n[2])) == CategoryColor::Yellow);
    assert(color_of_lowercase(ascii_lowercase(n[3])) == CategoryColor::Magenta);
    assert(color_of_lowercase(ascii_lowercase(n[4])) == CategoryColor::Cyan);
    assert(color_of_lowercase(ascii_lowercase(n[5])) == CategoryColor::LightCyan);
    assert(color_of_lowercase(ascii_lowercase(n[6])) == CategoryColor::LightRed);
    assert(color_of_lowercase(ascii_lowercase(n[7])) == CategoryColor::LightYellow);
    assert(color_of_lowercase(ascii_lowercase(n[8])) == CategoryColor::LightGreen);
    assert(color_of_lowercase(ascii_lowercase(n[9])) == CategoryColor::Red);
    assert forall|i: int, j: int| 0 <= i < j < 10 implies n[i] != n[j] by {
        assert(color_of_lowercase(ascii_lowercase(n[i])) != color_of_lowercase(ascii_lowercase(n[j])));
    }
}

/// The overlay that lists the key bindings.
#[derive(Clone, Copy, Debug)]
pub struct HelpView {
    pub active: bool,
}

impl HelpView {
    /// A hidden overlay.
    pub fn new() -> (r: Self)
        ensures
            !r.active,
    {
        HelpView { active: false }
    }

    /// Shows the overlay when hidden, hides it when shown.
    pub fn toggle(&mut self)
        ensures
            final(self).active == !old(self).active,
    {
        self.active = !self.active;
    }

    /// Where the overlay goes on a screen of `width` by `height` cells, as (x, y, width, height):
    /// at most 70 by 40 cells, leaving a margin of 2 on each side where the screen allows,
    /// and centred.
    pub fn modal_area(&self, width: u16, height: u16) -> (r: (u16, u16, u16, u16))
        ensures
            r.2 == vstd::math::min(70, if width >= 4 { width - 4 } else { 0 }),
            r.3 == vstd::math::min(40, if height >= 4 { height - 4 } else { 0 }),
            r.0 == (width - r.2) / 2,
            r.1 == (height - r.3) / 2,
    {
        let w_room: u16 = if width >= 4 { width - 4 } else { 0 };
        let h_room: u16 = if height >= 4 { height - 4 } else { 0 };
        let modal_width: u16 = if w_room < 70 { w_room } else { 70 };
        let modal_height: u16 = if h_room < 40 { h_room } else { 40 };
        ((width - modal_width) / 2, (height - modal_height) / 2, modal_width, modal_height)
    }
}

impl Default for HelpView {
    fn default() -> (r: Self)
        ensures
            !r.active,
    {
        Self::new()
    }
}

/// What the keyboard is being used for.
#[derive(Clone, Copy, Debug, PartialEq, Eq, Structural)]
pub enum InputMode {
    Normal,
    DatePrompt,
    EventModal,
    DeleteConfirmation,
}

/// The name shown for a view mode.
pub open spec fn view_mode_label(mode: ViewMode) -> Seq<char> {
    match mode {
        ViewMode::Day => "Day"@,
        ViewMode::Week => "Week"@,
        ViewMode::Month => "Month"@,
        ViewMode::Year => "Year"@,
    }
}

/// The name shown for an input mode.
pub open spec fn input_mode_label(mode: InputMode) -> Seq<char> {
    match mode {
        InputMode::Normal => "NORMAL"@,
        InputMode::DatePrompt => "GOTO"@,
        InputMode::EventModal => "MODAL"@,
        InputMode::DeleteConfirmation => "CONFIRM"@,
    }
}

/// The key hints shown for an input mode.
pub open spec fn input_mode_hints(mode: InputMode) -> Seq<char> {
    match mode {
        InputMode::Normal => "? Help | o New | ? for help"@,
        InputMode::DatePrompt => "Enter: go | Esc: cancel"@,
        InputMode::EventModal => "i/a: insert | Esc: normal | :w save | :q cancel"@,
        InputMode::DeleteConfirmation => "y: confirm | n/Esc: cancel"@,
    }
}

/// The two lines at the bottom of the screen.
#[derive(Clone, Copy, Debug)]
pub struct StatusBar {
    pub height: u16,
}

impl StatusBar {
    /// A status bar two lines high.
    pub fn new() -> (r: Self)
        ensures
            r.height == 2,
    {
        StatusBar { height: 2 }
    }

    /// The name of a view mode, as the top line shows it.
    pub fn view_name(&self, mode: ViewMode) -> (r: &'static str)
        ensures
            r@ == view_mode_label(mode),
    {
        match mode {
            ViewMode::Day => "Day",
            ViewMode::Week => "Week",
            ViewMode::Month => "Month",
            ViewMode::Year => "Year",
        }
    }

    /// The number of events, as the top line shows it: `1 event`, `3 events`.
    pub fn event_count_text(&self, count: usize) -> (r: String)
        ensures
            r@ == decimal_text(count as nat) + " event"@ + (if count == 1 { ""@ } else { "s"@ }),
    {
        let mut r = usize_text(count);
        string_push_str(&mut r, " event");
        if count != 1 {
            string_push(&mut r, 's');
            proof {
                reveal_strlit("s");
            }
        } else {
            proof {
                reveal_strlit("");
            }
        }
        assert(r@ =~= decimal_text(count as nat) + " event"@ + (if count == 1 { ""@ } else { "s"@ }));
        r
    }

    /// The name of an input mode, as the bottom line shows it.
    pub fn mode_text(&self, mode: InputMode) -> (r: &'static str)
        ensures
            r@ == input_mode_label(mode),
    {
        match mode {
            InputMode::Normal => "NORMAL",
            InputMode::DatePrompt => "GOTO",
            InputMode::EventModal => "MODAL",
            InputMode::DeleteConfirmation => "CONFIRM",
        }
    }

    /// The key hints for an input mode, as the bottom line shows them.
    pub fn hints(&self, mode: InputMode) -> (r: &'static str)
        ensures
            r@ == input_mode_hints(mode),
    {
        match mode {
            InputMode::Normal => "? Help | o New | ? for help",
            InputMode::DatePrompt => "Enter: go | Esc: cancel",
            InputMode::EventModal => "i/a: insert | Esc: normal | :w save | :q cancel",
            InputMode::DeleteConfirmation => "y: confirm | n/Esc: cancel",
        }
    }
}

impl Default for StatusBar {
    fn default() -> (r: Self)
        ensures
            r.height == 2,
    {
        Self::new()
    }
}

/// The application: the calendar, the month view on it, and whether to stop.
#[derive(Clone, Debug)]
pub struct App {
    pub should_quit: bool,
    pub state: CalendarState,
    pub month_view: MonthView,
}

impl App {
    /// `after` is `self` with the month view's date moved by `days`.
    pub open spec fn moved_by(self, days: int, after: App) -> bool {
        &&& shifted_or_same(self.month_view.selected_date, days, after.month_view.selected_date)
        &&& after.month_view.selected_event_index == self.month_view.selected_event_index
        &&& after.state == self.state
        &&& after.should_quit == self.should_quit
    }

    /// What a key press makes of the application: `q` and Esc quit; the arrows and `h`, `j`,
    /// `k`, `l` move the selected day by a day or a week; `n` and `p` move the calendar a period
    /// forward or back; `t` shows today in both; any other key changes nothing.
    pub open spec fn after_key(self, key: Key, after: App) -> bool {
        if key == Key::Char('q') || key == Key::Esc {
            after == (App { should_quit: true, ..self })
        } else if key == Key::Left || key == Key::Char('h') {
            self.moved_by(-1, after)
        } else if key == Key::Right || key == Key::Char('l') {
            self.moved_by(1, after)
        } else if key == Key::Up || key == Key::Char('k') {
            self.moved_by(-7, after)
        } else if key == Key::Down || key == Key::Char('j') {
            self.moved_by(7, after)
        } else if key == Key::Char('n') {
            &&& CalendarState::advanced(self.state.view_mode, self.state.current_date, after.state.current_date)
            &&& after.state == (CalendarState { current_date: after.state.current_date, ..self.state })
            &&& after.month_view == self.month_view
            &&& after.should_quit == self.should_quit
        } else if key == Key::Char('p') {
            &&& CalendarState::retreated(self.state.view_mode, self.state.current_date, after.state.current_date)
            &&& after.state == (CalendarState { current_date: after.state.current_date, ..self.state })
            &&& after.month_view == self.month_view
            &&& after.should_quit == self.should_quit
        } else if key == Key::Char('t') {
            &&& after.state.current_date.is_valid()
            &&& after.state == (CalendarState { current_date: after.state.current_date, ..self.state })
            &&& after.month_view == (MonthView { selected_date: after.state.current_date, ..self.month_view })
            &&& after.should_quit == self.should_quit
        } else {
            after == self
        }
    }

    /// The keys that the application can take in its present state: moving the calendar a
    /// period must stay within the range of dates.
    pub open spec fn can_take(self, key: Key) -> bool {
        &&& self.month_view.selected_date.is_valid()
        &&& key == Key::Char('n') ==> self.state.current_date.is_valid() && self.state.can_advance()
        &&& key == Key::Char('p') ==> self.state.current_date.is_valid() && self.state.can_retreat()
    }

    /// Whether the application can take `key` now; see `can_take`.
    pub fn accepts(&self, key: Key) -> (r: bool)
        ensures
            r == self.can_take(key),
    {
        let d = self.month_view.selected_date;
        if Date::from_ymd_opt(d.year, d.month, d.day).is_none() {
            return false;
        }
        let c = self.state.current_date;
        let current_valid = Date::from_ymd_opt(c.year, c.month, c.day).is_some();
        if key == Key::Char('n') {
            current_valid && match self.state.view_mode {
                ViewMode::Day => c.checked_add_days(1).is_some(),
                ViewMode::Week => c.checked_add_days(7).is_some(),
                ViewMode::Month => c.month != 12 || c.year < MAX_YEAR,
                ViewMode::Year => c.year < MAX_YEAR,
            }
        } else if key == Key::Char('p') {
            current_valid && match self.state.view_mode {
                ViewMode::Day => c.checked_add_days(-1).is_some(),
                ViewMode::Week => c.checked_add_days(-7).is_some(),
                ViewMode::Month => c.month != 1 || c.year > MIN_YEAR,
                ViewMode::Year => c.year > MIN_YEAR,
            }
        } else {
            true
        }
    }

    /// An application on today's month, with no events, not quitting.
    pub fn new() -> (r: Self)
        ensures
            !r.should_quit,
            r.state.current_date.is_valid(),
            r.state.view_mode == ViewMode::Month,
            r.state.events@.len() == 0,
            r.state.selected_event_index is None,
            r.month_view.selected_date.is_valid(),
            r.month_view.selected_event_index is None,
    {
        App { should_quit: false, state: CalendarState::new(), month_view: MonthView::new() }
    }

    /// Handles one key press.
    pub fn handle_key(&mut self, key: Key)
        requires
            old(self).can_take(key),
        ensures
            old(self).after_key(key, *final(self)),
    {
        if key == Key::Char('q') || key == Key::Esc {
            self.should_quit = true;
        } else if key == Key::Left || key == Key::Char('h') {
            self.month_view.move_selection(-1);
        } else if key == Key::Right || key == Key::Char('l') {
            self.month_view.move_selection(1);
        } else if key == Key::Up || key == Key::Char('k') {
            self.month_view.move_selection(-7);
        } else if key == Key::Down || key == Key::Char('j') {
            self.month_view.move_selection(7);
        } else if key == Key::Char('n') {
            self.state.next_period();
        } else if key == Key::Char('p') {
            self.state.previous_period();
        } else if key == Key::Char('t') {
            self.state.go_to_today();
            let today = self.state.current_date;
            self.month_view.select_date(today);
        }
    }
}

impl Default for App {
    fn default() -> (r: Self)
        ensures
            !r.should_quit,
            r.state.current_date.is_valid(),
            r.state.view_mode == ViewMode::Month,
            r.state.events@.len() == 0,
            r.state.selected_event_index is None,
            r.month_view.selected_date.is_valid(),
            r.month_view.selected_event_index is None,
    {
        Self::new()
    }
}


/// The arrow keys and `h`, `j`, `k`, `l` move the selected day: Left and `h` one day back, Right
/// and `l` one day on, Up and `k` a week back, Down and `j` a week on (where the move stays in
/// the range of dates; otherwise the day stays). Nothing else of the application changes, and
/// each arrow gives exactly what its letter gives.
pub proof fn law_arrows_move_selection(a: App, key: Key, after: App, letter_after: App)
    requires
        a.month_view.selected_date.is_valid(),
        key == Key::Left || key == Key::Right || key == Key::Up || key == Key::Down,
        a.after_key(key, after),
        a.after_key(
            if key == Key::Left { Key::Char('h') } else if key == Key::Right { Key::Char('l') } else if key == Key::Up { Key::Char('k') } else { Key::Char('j') },
            letter_after,
        ),
    ensures
        ({
            let d = a.month_view.selected_date.day_number();
            let step: int = if key == Key::Left { -1 } else if key == Key::Right { 1 } else if key == Key::Up { -7 } else { 7 };
            &&& day_number_in_range(d + step) ==> after.month_view.selected_date.is_valid()
                && after.month_view.selected_date.day_number() == d + step
            &&& !day_number_in_range(d + step) ==> after.month_view.selected_date == a.month_view.selected_date
        }),
        after.state == a.state,
        after.should_quit == a.should_quit,
        after.month_view.selected_event_index == a.month_view.selected_event_index,
        after == letter_after,
{
    let d = a.month_view.selected_date;
    let (x, y) = (after.month_view.selected_date, letter_after.month_view.selected_date);
    if x.is_valid() && y.is_valid() && x.day_number() == y.day_number() {
        lemma_day_number_injective(x, y);
    }
    assert(x == y);
}

} // verus!
