//! The event form: six text fields edited with vim-style keys.
use crate::datetime::{
    add_minutes, lemma_seconds_injective, lemma_valid_seconds_in_range, date_text, format_date, format_time, parse_date, parse_time, parsed_date,
    parsed_time, seconds_in_range, time_text, Date, DateTime, MAX_SPAN_MINUTES,
};
use crate::events::Event;
use crate::text::{
    i64_text, lemma_parsed_i64_of_text, parse_i64, parsed_i64, signed_decimal_text, string_insert, string_len, string_pop, string_push,
    string_remove, str_equal, trim, trimmed_text, utf8, lemma_trimmed_empty,
};
use vstd::prelude::*;
use vstd::utf8::{
    char_u32_cast, decode_first_scalar, encode_scalar, encode_utf8_decode_utf8,
    encode_utf8_first_scalar, encode_utf8_valid_utf8, is_ascii_chars, is_ascii_chars_encode_utf8,
    is_char_boundary, is_char_boundary_iff_is_leading_byte, is_char_boundary_iff_not_is_continuation_byte,
    length_of_first_scalar,
};

verus! {

/// A field of the form.
#[derive(Clone, Copy, Debug, PartialEq, Eq, Structural)]
pub enum ModalField {
    Title,
    Date,
    Time,
    Duration,
    Category,
    Description,
}

/// The editing mode.
#[derive(Clone, Copy, Debug, PartialEq, Eq, Structural)]
pub enum VimMode {
    Normal,
    Insert,
    Command,
}

/// What the form asks of the application after a key.
#[derive(Clone, Copy, Debug, PartialEq, Eq, Structural)]
pub enum ModalAction {
    Nothing,
    Save,
    Cancel,
}

/// A key press, as the form sees it.
#[derive(Clone, Copy, Debug, PartialEq, Eq, Structural)]
pub enum Key {
    Char(char),
    Esc,
    Enter,
    Backspace,
    Delete,
    Left,
    Right,
    Up,
    Down,
    Tab,
    BackTab,
    Other,
}

/// The form's state.
#[derive(Clone, Debug)]
pub struct EventModal {
    pub active: bool,
    pub focused_field: ModalField,
    pub vim_mode: VimMode,
    pub title: String,
    pub date_input: String,
    pub time_input: String,
    pub duration_input: String,
    pub category_input: String,
    pub description: String,
    /// A byte position in the focused field.
    pub cursor_pos: usize,
    pub command_buffer: String,
    pub editing_event_id: Option<String>,
}

/// The length in bytes of a text.
pub open spec fn byte_len(s: Seq<char>) -> int {
    utf8(s).len() as int
}

/// The field after `f`, wrapping from the last to the first.
pub open spec fn field_after(f: ModalField) -> ModalField {
    match f {
        ModalField::Title => ModalField::Date,
        ModalField::Date => ModalField::Time,
        ModalField::Time => ModalField::Duration,
        ModalField::Duration => ModalField::Category,
        ModalField::Category => ModalField::Description,
        ModalField::Description => ModalField::Title,
    }
}

/// The field before `f`, wrapping from the first to the last.
pub open spec fn field_before(f: ModalField) -> ModalField {
    match f {
        ModalField::Title => ModalField::Description,
        ModalField::Date => ModalField::Title,
        ModalField::Time => ModalField::Date,
        ModalField::Duration => ModalField::Time,
        ModalField::Category => ModalField::Duration,
        ModalField::Description => ModalField::Category,
    }
}

impl EventModal {
    /// The text of field `f`.
    pub open spec fn content(self, f: ModalField) -> Seq<char> {
        match f {
            ModalField::Title => self.title@,
            ModalField::Date => self.date_input@,
            ModalField::Time => self.time_input@,
            ModalField::Duration => self.duration_input@,
            ModalField::Category => self.category_input@,
            ModalField::Description => self.description@,
        }
    }

    /// The byte length of the focused field.
    pub open spec fn focused_len(self) -> int {
        byte_len(self.content(self.focused_field))
    }

    /// Every text field other than `f`, and the command buffer, identifier and activity, are the
    /// same in `self` and `other`.
    pub open spec fn same_except(self, other: EventModal, f: Option<ModalField>) -> bool {
        &&& (f != Some(ModalField::Title) ==> other.title == self.title)
        &&& (f != Some(ModalField::Date) ==> other.date_input == self.date_input)
        &&& (f != Some(ModalField::Time) ==> other.time_input == self.time_input)
        &&& (f != Some(ModalField::Duration) ==> other.duration_input == self.duration_input)
        &&& (f != Some(ModalField::Category) ==> other.category_input == self.category_input)
        &&& (f != Some(ModalField::Description) ==> other.description == self.description)
        &&& other.active == self.active
        &&& other.editing_event_id == self.editing_event_id
    }
}


impl EventModal {
    /// A closed, empty form in insert mode on the title, with a duration of 60 minutes.
    pub fn new() -> (r: Self)
        ensures
            !r.active,
            r.focused_field == ModalField::Title,
            r.vim_mode == VimMode::Insert,
            r.title@ == Seq::<char>::empty(),
            r.date_input@ == Seq::<char>::empty(),
            r.time_input@ == Seq::<char>::empty(),
            r.duration_input@ == "60"@,
            r.category_input@ == Seq::<char>::empty(),
            r.description@ == Seq::<char>::empty(),
            r.cursor_pos == 0,
            r.command_buffer@ == Seq::<char>::empty(),
            r.editing_event_id is None,
    {
        EventModal {
            active: false,
            focused_field: ModalField::Title,
            vim_mode: VimMode::Insert,
            title: String::new(),
            date_input: String::new(),
            time_input: String::new(),
            duration_input: String::from_str("60"),
            category_input: String::new(),
            description: String::new(),
            cursor_pos: 0,
            command_buffer: String::new(),
            editing_event_id: None,
        }
    }

    /// Opens the form for a new event on `initial_date` at 09:00; the title, duration, category
    /// and description keep what they held.
    pub fn open(&mut self, initial_date: Date)
        requires
            initial_date.is_valid(),
        ensures
            final(self).active,
            final(self).focused_field == ModalField::Title,
            final(self).vim_mode == VimMode::Insert,
            final(self).date_input@ == date_text(initial_date),
            final(self).time_input@ == "09:00"@,
            final(self).cursor_pos == 0,
            final(self).command_buffer@ == Seq::<char>::empty(),
            final(self).editing_event_id is None,
            final(self).title == old(self).title,
            final(self).duration_input == old(self).duration_input,
            final(self).category_input == old(self).category_input,
            final(self).description == old(self).description,
    {
        self.active = true;
        self.focused_field = ModalField::Title;
        self.vim_mode = VimMode::Insert;
        self.date_input = format_date(initial_date);
        self.time_input = String::from_str("09:00");
        self.cursor_pos = 0;
        self.command_buffer = String::new();
        self.editing_event_id = None;
    }

    /// `self` is the form opened on `event`: active, in insert mode on the title, each field
    /// holding the event's value as text (the date and time that parse back, the duration in
    /// whole minutes, which parses back too, the category name and the description, empty when
    /// the event has none), and editing the event.
    pub open spec fn opened_for(self, event: Event) -> bool {
        &&& self.active
        &&& self.focused_field == ModalField::Title
        &&& self.vim_mode == VimMode::Insert
        &&& self.title == event.title
        &&& self.date_input@ == date_text(event.start_time.date)
        &&& parsed_date(self.date_input@) == Some(event.start_time.date)
        &&& self.time_input@ == time_text(event.start_time.hour as int, event.start_time.minute as int)
        &&& parsed_time(self.time_input@) == Some((event.start_time.hour, event.start_time.minute))
        &&& self.duration_input@ == signed_decimal_text(
            crate::datetime::truncated_minutes(event.end_time.seconds() - event.start_time.seconds()),
        )
        &&& parsed_i64(self.duration_input@) matches Some(n)
            && n == crate::datetime::truncated_minutes(event.end_time.seconds() - event.start_time.seconds())
        &&& self.category_input@ == match event.category {
            Some(c) => c.name@,
            None => Seq::<char>::empty(),
        }
        &&& self.description@ == match event.description {
            Some(d) => d@,
            None => Seq::<char>::empty(),
        }
        &&& self.cursor_pos == 0
        &&& self.command_buffer@ == Seq::<char>::empty()
        &&& self.editing_event_id == Some(event.id)
    }

    /// Opens the form on an existing event, filled with its values.
    pub fn open_for_edit(&mut self, event: &Event)
        requires
            event.start_time.is_valid(),
            event.end_time.is_valid(),
        ensures
            final(self).opened_for(*event),
    {
        self.active = true;
        self.focused_field = ModalField::Title;
        self.vim_mode = VimMode::Insert;
        self.title = event.title.clone();
        self.date_input = format_date(event.start_time.date);
        self.time_input = format_time(event.start_time);
        let minutes = event.duration_minutes();
        self.duration_input = i64_text(minutes);
        proof {
            lemma_parsed_i64_of_text(minutes);
        }
        self.category_input = match &event.category {
            Some(c) => c.name.clone(),
            None => String::new(),
        };
        self.description = match &event.description {
            Some(d) => d.clone(),
            None => String::new(),
        };
        self.cursor_pos = 0;
        self.command_buffer = String::new();
        self.editing_event_id = Some(event.id.clone());
    }

    /// Whether the form edits an existing event.
    pub fn is_editing(&self) -> (r: bool)
        ensures
            r == self.editing_event_id is Some,
    {
        self.editing_event_id.is_some()
    }

    /// Closes the form and clears it.
    pub fn close(&mut self)
        ensures
            !final(self).active,
            final(self).cleared_from(*old(self)),
    {
        self.active = false;
        self.clear();
    }

    /// `self` is `before` with its text fields emptied, the duration set to 60, the cursor at the
    /// start and no event being edited.
    pub open spec fn cleared_from(self, before: EventModal) -> bool {
        &&& self.title@ == Seq::<char>::empty()
        &&& self.date_input@ == Seq::<char>::empty()
        &&& self.time_input@ == Seq::<char>::empty()
        &&& self.duration_input@ == "60"@
        &&& self.category_input@ == Seq::<char>::empty()
        &&& self.description@ == Seq::<char>::empty()
        &&& self.cursor_pos == 0
        &&& self.command_buffer@ == Seq::<char>::empty()
        &&& self.editing_event_id is None
        &&& self.focused_field == before.focused_field
        &&& self.vim_mode == before.vim_mode
    }

    /// Empties the form.
    pub fn clear(&mut self)
        ensures
            final(self).cleared_from(*old(self)),
            final(self).active == old(self).active,
    {
        self.title = String::new();
        self.date_input = String::new();
        self.time_input = String::new();
        self.duration_input = String::from_str("60");
        self.category_input = String::new();
        self.description = String::new();
        self.cursor_pos = 0;
        self.command_buffer = String::new();
        self.editing_event_id = None;
    }

    /// The text of the focused field.
    pub fn current_field_content(&self) -> (r: &str)
        ensures
            r@ == self.content(self.focused_field),
    {
        match self.focused_field {
            ModalField::Title => self.title.as_str(),
            ModalField::Date => self.date_input.as_str(),
            ModalField::Time => self.time_input.as_str(),
            ModalField::Duration => self.duration_input.as_str(),
            ModalField::Category => self.category_input.as_str(),
            ModalField::Description => self.description.as_str(),
        }
    }

    /// The focused field, for editing.
    pub fn current_field_content_mut(&mut self) -> (r: &mut String)
        ensures
            *r == match old(self).focused_field {
                ModalField::Title => old(self).title,
                ModalField::Date => old(self).date_input,
                ModalField::Time => old(self).time_input,
                ModalField::Duration => old(self).duration_input,
                ModalField::Category => old(self).category_input,
                ModalField::Description => old(self).description,
            },
            *final(self) == match old(self).focused_field {
                ModalField::Title => EventModal { title: *final(r), ..*old(self) },
                ModalField::Date => EventModal { date_input: *final(r), ..*old(self) },
                ModalField::Time => EventModal { time_input: *final(r), ..*old(self) },
                ModalField::Duration => EventModal { duration_input: *final(r), ..*old(self) },
                ModalField::Category => EventModal { category_input: *final(r), ..*old(self) },
                ModalField::Description => EventModal { description: *final(r), ..*old(self) },
            },
    {
        match self.focused_field {
            ModalField::Title => &mut self.title,
            ModalField::Date => &mut self.date_input,
            ModalField::Time => &mut self.time_input,
            ModalField::Duration => &mut self.duration_input,
            ModalField::Category => &mut self.category_input,
            ModalField::Description => &mut self.description,
        }
    }
}


/// The action that a command line asks for: `w` or `wq` saves, `q` or `q!` cancels.
pub open spec fn command_action(command: Seq<char>) -> ModalAction {
    if command == "w"@ || command == "wq"@ {
        ModalAction::Save
    } else if command == "q"@ || command == "q!"@ {
        ModalAction::Cancel
    } else {
        ModalAction::Nothing
    }
}

/// `bytes` less the encoding of one character at byte position `at`.
pub open spec fn without_char_at(bytes: Seq<u8>, at: int, result: Seq<u8>) -> bool {
    exists|ch: char| {
        &&& at + utf8(seq![ch]).len() <= bytes.len()
        &&& #[trigger] bytes.subrange(at, at + utf8(seq![ch]).len()) == utf8(seq![ch])
        &&& result == bytes.take(at) + bytes.skip(at + utf8(seq![ch]).len())
    }
}

impl EventModal {
    /// Only the mode and the cursor differ between `self` and `after`.
    pub open spec fn moved_to(self, after: EventModal, mode: VimMode, cursor: int) -> bool {
        &&& self.same_except(after, None)
        &&& after.focused_field == self.focused_field
        &&& after.command_buffer == self.command_buffer
        &&& after.vim_mode == mode
        &&& after.cursor_pos == cursor
    }

    /// `after` is `self` with the focused field's bytes replaced by `bytes` and the cursor at
    /// `cursor`.
    pub open spec fn edited_to(self, after: EventModal, bytes: Seq<u8>, cursor: int) -> bool {
        &&& self.same_except(after, Some(self.focused_field))
        &&& utf8(after.content(self.focused_field)) == bytes
        &&& after.focused_field == self.focused_field
        &&& after.command_buffer == self.command_buffer
        &&& after.vim_mode == self.vim_mode
        &&& after.cursor_pos == cursor
    }

    /// `after` is `self` with the focus on field `f` and the cursor at its end.
    pub open spec fn focused_to(self, after: EventModal, f: ModalField) -> bool {
        &&& self.same_except(after, None)
        &&& after.focused_field == f
        &&& after.command_buffer == self.command_buffer
        &&& after.vim_mode == self.vim_mode
        &&& after.cursor_pos == byte_len(self.content(f))
    }

    /// `after` is `self` in mode `mode` with the command line holding `command`.
    pub open spec fn commanded_to(self, after: EventModal, mode: VimMode, command: Seq<char>) -> bool {
        &&& self.same_except(after, None)
        &&& after.focused_field == self.focused_field
        &&& after.command_buffer@ == command
        &&& after.vim_mode == mode
        &&& after.cursor_pos == self.cursor_pos
    }

    /// The cursor's byte position starts a character of the focused field (or is its end).
    pub open spec fn cursor_on_boundary(self, at: int) -> bool {
        is_char_boundary(utf8(self.content(self.focused_field)), at)
    }

    /// The key can be handled: wherever it removes or inserts a character at the cursor, the
    /// cursor lies on a character boundary of the focused field.
    pub open spec fn can_handle(self, key: Key) -> bool {
        let c = self.cursor_pos as int;
        let len = self.focused_len();
        match self.vim_mode {
            VimMode::Normal => key == Key::Char('x') && c < len ==> self.cursor_on_boundary(c),
            VimMode::Insert => match key {
                Key::Char(_) => c <= len ==> self.cursor_on_boundary(c),
                Key::Backspace => c > 0 ==> c - 1 < len && self.cursor_on_boundary(c - 1),
                Key::Delete => c < len ==> self.cursor_on_boundary(c),
                _ => true,
            },
            VimMode::Command => true,
        }
    }

    /// What a key does in normal mode.
    pub open spec fn normal_outcome(self, key: Key, after: EventModal, action: ModalAction) -> bool {
        let c = self.cursor_pos as int;
        let len = self.focused_len();
        let b = utf8(self.content(self.focused_field));
        &&& action == (if key == Key::Esc { ModalAction::Cancel } else { ModalAction::Nothing })
        &&& match key {
            Key::Char('i') => self.moved_to(after, VimMode::Insert, c),
            Key::Char('a') => self.moved_to(after, VimMode::Insert, vstd::math::min(vstd::math::min(c, len) + 1, len)),
            Key::Char('A') => self.moved_to(after, VimMode::Insert, len),
            Key::Char('I') => self.moved_to(after, VimMode::Insert, 0),
            Key::Char('h') => self.moved_to(after, VimMode::Normal, if c > 0 { c - 1 } else { 0 }),
            Key::Char('l') => self.moved_to(
                after,
                VimMode::Normal,
                vstd::math::min(vstd::math::min(c + 1, usize::MAX as int), if len > 0 { len - 1 } else { 0 }),
            ),
            Key::Char('0') => self.moved_to(after, VimMode::Normal, 0),
            Key::Char('$') => self.moved_to(after, VimMode::Normal, if len > 0 { len - 1 } else { 0 }),
            Key::Char('x') => if c < len {
                exists|rest: Seq<u8>| #[trigger] without_char_at(b, c, rest) && self.edited_to(
                    after,
                    rest,
                    if c >= rest.len() && c > 0 { c - 1 } else { c },
                )
            } else {
                after == self
            },
            Key::Char('d') => self.edited_to(after, Seq::<u8>::empty(), 0),
            Key::Char(':') => self.commanded_to(after, VimMode::Command, Seq::<char>::empty()),
            Key::Char('j') | Key::Down | Key::Tab => self.focused_to(after, field_after(self.focused_field)),
            Key::Char('k') | Key::Up => self.focused_to(after, field_before(self.focused_field)),
            _ => after == self,
        }
    }

    /// What a key does in insert mode.
    pub open spec fn insert_outcome(self, key: Key, after: EventModal, action: ModalAction) -> bool {
        let c = self.cursor_pos as int;
        let len = self.focused_len();
        let b = utf8(self.content(self.focused_field));
        &&& action == ModalAction::Nothing
        &&& match key {
            Key::Esc => self.moved_to(after, VimMode::Normal, if c > 0 { c - 1 } else { c }),
            Key::Char(ch) => if c <= len {
                self.edited_to(after, b.take(c) + utf8(seq![ch]) + b.skip(c), c + 1)
            } else {
                after == self
            },
            Key::Backspace => if c > 0 {
                exists|rest: Seq<u8>| #[trigger] without_char_at(b, c - 1, rest) && self.edited_to(after, rest, c - 1)
            } else {
                after == self
            },
            Key::Delete => if c < len {
                exists|rest: Seq<u8>| #[trigger] without_char_at(b, c, rest) && self.edited_to(after, rest, c)
            } else {
                after == self
            },
            Key::Left => self.moved_to(after, VimMode::Insert, if c > 0 { c - 1 } else { 0 }),
            Key::Right => self.moved_to(after, VimMode::Insert, vstd::math::min(vstd::math::min(c + 1, usize::MAX as int), len)),
            Key::Tab => self.focused_to(after, field_after(self.focused_field)),
            Key::BackTab => self.focused_to(after, field_before(self.focused_field)),
            _ => after == self,
        }
    }

    /// What a key does in command mode.
    pub open spec fn command_outcome(self, key: Key, after: EventModal, action: ModalAction) -> bool {
        match key {
            Key::Esc => action == ModalAction::Nothing && self.commanded_to(after, VimMode::Normal, Seq::<char>::empty()),
            Key::Enter => action == command_action(self.command_buffer@)
                && self.commanded_to(after, VimMode::Normal, Seq::<char>::empty()),
            Key::Char(ch) => action == ModalAction::Nothing
                && self.commanded_to(after, VimMode::Command, self.command_buffer@.push(ch)),
            Key::Backspace => action == ModalAction::Nothing && self.commanded_to(
                after,
                VimMode::Command,
                if self.command_buffer@.len() > 0 { self.command_buffer@.drop_last() } else { self.command_buffer@ },
            ),
            _ => action == ModalAction::Nothing && after == self,
        }
    }

    /// What a key does.
    pub open spec fn key_outcome(self, key: Key, after: EventModal, action: ModalAction) -> bool {
        match self.vim_mode {
            VimMode::Normal => self.normal_outcome(key, after, action),
            VimMode::Insert => self.insert_outcome(key, after, action),
            VimMode::Command => self.command_outcome(key, after, action),
        }
    }

    /// Moves the focus to the next field, with the cursor at its end.
    pub fn next_field(&mut self)
        ensures
            old(self).focused_to(*final(self), field_after(old(self).focused_field)),
    {
        self.focused_field = match self.focused_field {
            ModalField::Title => ModalField::Date,
            ModalField::Date => ModalField::Time,
            ModalField::Time => ModalField::Duration,
            ModalField::Duration => ModalField::Category,
            ModalField::Category => ModalField::Description,
            ModalField::Description => ModalField::Title,
        };
        self.cursor_pos = self.current_field_len();
    }

    /// Moves the focus to the previous field, with the cursor at its end.
    pub fn prev_field(&mut self)
        ensures
            old(self).focused_to(*final(self), field_before(old(self).focused_field)),
    {
        self.focused_field = match self.focused_field {
            ModalField::Title => ModalField::Description,
            ModalField::Date => ModalField::Title,
            ModalField::Time => ModalField::Date,
            ModalField::Duration => ModalField::Time,
            ModalField::Category => ModalField::Duration,
            ModalField::Description => ModalField::Category,
        };
        self.cursor_pos = self.current_field_len();
    }

    /// The byte length of the focused field.
    fn current_field_len(&self) -> (r: usize)
        ensures
            r == self.focused_len(),
    {
        match self.focused_field {
            ModalField::Title => string_len(&self.title),
            ModalField::Date => string_len(&self.date_input),
            ModalField::Time => string_len(&self.time_input),
            ModalField::Duration => string_len(&self.duration_input),
            ModalField::Category => string_len(&self.category_input),
            ModalField::Description => string_len(&self.description),
        }
    }

    /// Handles a key press in the current mode.
    pub fn handle_key(&mut self, key: Key) -> (r: ModalAction)
        requires
            old(self).can_handle(key),
        ensures
            old(self).key_outcome(key, *final(self), r),
    {
        match self.vim_mode {
            VimMode::Normal => self.handle_normal_mode(key),
            VimMode::Insert => self.handle_insert_mode(key),
            VimMode::Command => self.handle_command_mode(key),
        }
    }

    fn handle_normal_mode(&mut self, key: Key) -> (r: ModalAction)
        requires
            old(self).vim_mode == VimMode::Normal,
            old(self).can_handle(key),
        ensures
            old(self).normal_outcome(key, *final(self), r),
    {
        match key {
            Key::Char('i') => {
                self.vim_mode = VimMode::Insert;
                ModalAction::Nothing
            },
            Key::Char('a') => {
                self.vim_mode = VimMode::Insert;
                let len = self.current_field_len();
                let m = if self.cursor_pos < len { self.cursor_pos } else { len };
                let next = if m < usize::MAX { m + 1 } else { m };
                self.cursor_pos = if next < len { next } else { len };
                ModalAction::Nothing
            },
            Key::Char('A') => {
                self.vim_mode = VimMode::Insert;
                self.cursor_pos = self.current_field_len();
                ModalAction::Nothing
            },
            Key::Char('I') => {
                self.vim_mode = VimMode::Insert;
                self.cursor_pos = 0;
                ModalAction::Nothing
            },
            Key::Char('h') => {
                self.cursor_pos = if self.cursor_pos > 0 { self.cursor_pos - 1 } else { 0 };
                ModalAction::Nothing
            },
            Key::Char('l') => {
                let len = self.current_field_len();
                let next = if self.cursor_pos < usize::MAX { self.cursor_pos + 1 } else { usize::MAX };
                let last = if len > 0 { len - 1 } else { 0 };
                self.cursor_pos = if next < last { next } else { last };
                ModalAction::Nothing
            },
            Key::Char('0') => {
                self.cursor_pos = 0;
                ModalAction::Nothing
            },
            Key::Char('$') => {
                let len = self.current_field_len();
                self.cursor_pos = if len > 0 { len - 1 } else { 0 };
                ModalAction::Nothing
            },
            Key::Char('x') => {
                let cursor = self.cursor_pos;
                let ghost before = *self;
                let ghost b = utf8(before.content(before.focused_field));
                let content = self.current_field_content_mut();
                if cursor < string_len(content) {
                    let ch = string_remove(content, cursor);
                    let new_len = string_len(content);
                    proof {
                        let rest = utf8(content@);
                        assert(b.subrange(cursor as int, cursor + utf8(seq![ch]).len()) == utf8(seq![ch]));
                        assert(without_char_at(b, cursor as int, rest));
                    }
                    if cursor >= new_len && cursor > 0 {
                        self.cursor_pos = self.cursor_pos - 1;
                    }
                }
                ModalAction::Nothing
            },
            Key::Char('d') => {
                let content = self.current_field_content_mut();
                *content = String::new();
                self.cursor_pos = 0;
                ModalAction::Nothing
            },
            Key::Char(':') => {
                self.vim_mode = VimMode::Command;
                self.command_buffer = String::new();
                ModalAction::Nothing
            },
            Key::Char('j') | Key::Down | Key::Tab => {
                self.next_field();
                ModalAction::Nothing
            },
            Key::Char('k') | Key::Up => {
                self.prev_field();
                ModalAction::Nothing
            },
            Key::Esc => ModalAction::Cancel,
            _ => ModalAction::Nothing,
        }
    }

    fn handle_insert_mode(&mut self, key: Key) -> (r: ModalAction)
        requires
            old(self).vim_mode == VimMode::Insert,
            old(self).can_handle(key),
        ensures
            old(self).insert_outcome(key, *final(self), r),
    {
        match key {
            Key::Esc => {
                self.vim_mode = VimMode::Normal;
                if self.cursor_pos > 0 {
                    self.cursor_pos = self.cursor_pos - 1;
                }
                ModalAction::Nothing
            },
            Key::Char(c) => {
                let cursor = self.cursor_pos;
                let content = self.current_field_content_mut();
                if cursor <= string_len(content) {
                    string_insert(content, cursor, c);
                    self.cursor_pos = self.cursor_pos + 1;
                }
                ModalAction::Nothing
            },
            Key::Backspace => {
                if self.cursor_pos > 0 {
                    let cursor = self.cursor_pos;
                    let ghost b = utf8(self.content(self.focused_field));
                    let content = self.current_field_content_mut();
                    let ch = string_remove(content, cursor - 1);
                    proof {
                        let rest = utf8(content@);
                        assert(b.subrange(cursor - 1, cursor - 1 + utf8(seq![ch]).len()) == utf8(seq![ch]));
                        assert(without_char_at(b, cursor - 1, rest));
                    }
                    self.cursor_pos = self.cursor_pos - 1;
                }
                ModalAction::Nothing
            },
            Key::Delete => {
                let cursor = self.cursor_pos;
                let ghost b = utf8(self.content(self.focused_field));
                let content = self.current_field_content_mut();
                if cursor < string_len(content) {
                    let ch = string_remove(content, cursor);
                    proof {
                        let rest = utf8(content@);
                        assert(b.subrange(cursor as int, cursor + utf8(seq![ch]).len()) == utf8(seq![ch]));
                        assert(without_char_at(b, cursor as int, rest));
                    }
                }
                ModalAction::Nothing
            },
            Key::Left => {
                self.cursor_pos = if self.cursor_pos > 0 { self.cursor_pos - 1 } else { 0 };
                ModalAction::Nothing
            },
            Key::Right => {
                let len = self.current_field_len();
                let next = if self.cursor_pos < usize::MAX { self.cursor_pos + 1 } else { usize::MAX };
                self.cursor_pos = if next < len { next } else { len };
                ModalAction::Nothing
            },
            Key::Tab => {
                self.next_field();
                ModalAction::Nothing
            },
            Key::BackTab => {
                self.prev_field();
                ModalAction::Nothing
            },
            _ => ModalAction::Nothing,
        }
    }

    fn handle_command_mode(&mut self, key: Key) -> (r: ModalAction)
        requires
            old(self).vim_mode == VimMode::Command,
        ensures
            old(self).command_outcome(key, *final(self), r),
    {
        match key {
            Key::Esc => {
                self.vim_mode = VimMode::Normal;
                self.command_buffer = String::new();
                ModalAction::Nothing
            },
            Key::Enter => {
                let action = self.execute_command();
                self.command_buffer = String::new();
                self.vim_mode = VimMode::Normal;
                action
            },
            Key::Char(c) => {
                string_push(&mut self.command_buffer, c);
                ModalAction::Nothing
            },
            Key::Backspace => {
                string_pop(&mut self.command_buffer);
                ModalAction::Nothing
            },
            _ => ModalAction::Nothing,
        }
    }

    /// The action that the command line asks for.
    pub fn execute_command(&mut self) -> (r: ModalAction)
        ensures
            r == command_action(old(self).command_buffer@),
            *final(self) == *old(self),
    {
        let c = self.command_buffer.as_str();
        if str_equal(c, "w") || str_equal(c, "wq") {
            ModalAction::Save
        } else if str_equal(c, "q") || str_equal(c, "q!") {
            ModalAction::Cancel
        } else {
            ModalAction::Nothing
        }
    }
}


/// What a filled-in form describes.
#[derive(Clone, Debug)]
pub struct EventData {
    pub title: String,
    pub start_time: DateTime,
    pub end_time: DateTime,
    pub category: Option<String>,
    pub description: Option<String>,
}

/// The text is empty once leading and trailing white space is removed.
pub open spec fn is_blank(s: Seq<char>) -> bool {
    trimmed_text(s).len() == 0
}

impl EventModal {
    /// The start that the date and time fields describe, when both parse.
    pub open spec fn form_start(self) -> Option<DateTime> {
        match (parsed_date(self.date_input@), parsed_time(self.time_input@)) {
            (Some(d), Some((h, m))) => Some(DateTime { date: d, hour: h, minute: m, second: 0 }),
            _ => None,
        }
    }

    /// The duration that the duration field describes, when it parses.
    pub open spec fn form_duration(self) -> int {
        parsed_i64(self.duration_input@)->0 as int
    }

    /// Why the form does not describe an event, checked in order: title, date, time, duration.
    pub open spec fn form_error(self) -> Option<Seq<char>> {
        if is_blank(self.title@) {
            Some("Title is required"@)
        } else if parsed_date(self.date_input@) is None {
            Some("Invalid date format (use YYYY-MM-DD)"@)
        } else if parsed_time(self.time_input@) is None {
            Some("Invalid time format (use HH:MM)"@)
        } else if parsed_i64(self.duration_input@) is None {
            Some("Invalid duration (must be a number in minutes)"@)
        } else if self.form_duration() <= 0 {
            Some("Duration must be positive"@)
        } else {
            None
        }
    }

    /// When the form describes an event, its end is a moment that dates can hold.
    pub open spec fn end_representable(self) -> bool {
        self.form_error() is None ==> {
            &&& self.form_duration() <= MAX_SPAN_MINUTES
            &&& seconds_in_range(self.form_start()->0.seconds() + self.form_duration() * 60)
        }
    }

    /// `r` is what validating the form gives: its first error, or the event it describes.
    pub open spec fn validated(self, r: Result<EventData, String>) -> bool {
        match self.form_error() {
            Some(msg) => r matches Err(e) && e@ == msg,
            None => r matches Ok(data) && {
                &&& data.title == self.title
                &&& Some(data.start_time) == self.form_start()
                &&& data.end_time.is_valid()
                &&& data.end_time.seconds() == data.start_time.seconds() + self.form_duration() * 60
                &&& data.category == if is_blank(self.category_input@) { None } else { Some(self.category_input) }
                &&& data.description == if is_blank(self.description@) { None } else { Some(self.description) }
            },
        }
    }

    /// Checks the form and, when it is complete, the event that it describes.
    pub fn validate_and_create_event(&self) -> (r: Result<EventData, String>)
        requires
            self.end_representable(),
        ensures
            self.validated(r),
    {
        if trim(self.title.as_str()).is_empty() {
            return Err(String::from_str("Title is required"));
        }
        let date = match parse_date(self.date_input.as_str()) {
            Some(d) => d,
            None => return Err(String::from_str("Invalid date format (use YYYY-MM-DD)")),
        };
        let (hour, minute) = match parse_time(self.time_input.as_str()) {
            Some(t) => t,
            None => return Err(String::from_str("Invalid time format (use HH:MM)")),
        };
        let start_time = DateTime { date, hour, minute, second: 0 };
        let duration_minutes = match parse_i64(self.duration_input.as_str()) {
            Some(n) => n,
            None => return Err(String::from_str("Invalid duration (must be a number in minutes)")),
        };
        if duration_minutes <= 0 {
            return Err(String::from_str("Duration must be positive"));
        }
        let end_time = match add_minutes(start_time, duration_minutes) {
            Some(e) => e,
            None => {
                assert(false);
                start_time
            },
        };
        let category = if trim(self.category_input.as_str()).is_empty() {
            None
        } else {
            Some(self.category_input.clone())
        };
        let description = if trim(self.description.as_str()).is_empty() {
            None
        } else {
            Some(self.description.clone())
        };
        Ok(EventData { title: self.title.clone(), start_time, end_time, category, description })
    }

    /// Like `validate_and_create_event`, for any form: nothing when the form describes an event
    /// whose end no date can hold.
    pub fn checked_validate_and_create_event(&self) -> (r: Option<Result<EventData, String>>)
        ensures
            r is None <==> !self.end_representable(),
            r matches Some(v) ==> self.validated(v),
    {
        if !trim(self.title.as_str()).is_empty() {
            if let (Some(date), Some((hour, minute)), Some(n)) = (
                parse_date(self.date_input.as_str()),
                parse_time(self.time_input.as_str()),
                parse_i64(self.duration_input.as_str()),
            ) {
                if n > 0 {
                    if n > MAX_SPAN_MINUTES {
                        return None;
                    }
                    let start_time = DateTime { date, hour, minute, second: 0 };
                    if add_minutes(start_time, n).is_none() {
                        return None;
                    }
                }
            }
        }
        Some(self.validate_and_create_event())
    }
}

impl Default for EventModal {
    fn default() -> (r: Self)
        ensures
            !r.active,
            r.focused_field == ModalField::Title,
            r.vim_mode == VimMode::Insert,
            r.title@ == Seq::<char>::empty(),
            r.date_input@ == Seq::<char>::empty(),
            r.time_input@ == Seq::<char>::empty(),
            r.duration_input@ == "60"@,
            r.category_input@ == Seq::<char>::empty(),
            r.description@ == Seq::<char>::empty(),
            r.cursor_pos == 0,
            r.command_buffer@ == Seq::<char>::empty(),
            r.editing_event_id is None,
    {
        Self::new()
    }
}

/// Two characters whose UTF-8 encodings both begin `s` are the same: no encoding is a proper
/// prefix of another.
proof fn lemma_encoding_prefix_unique(a: char, b: char, s: Seq<u8>)
    requires
        utf8(seq![a]).len() <= s.len(),
        utf8(seq![b]).len() <= s.len(),
        s.take(utf8(seq![a]).len() as int) == utf8(seq![a]),
        s.take(utf8(seq![b]).len() as int) == utf8(seq![b]),
    ensures
        a == b,
{
    let ea = utf8(seq![a]);
    let eb = utf8(seq![b]);
    reveal_with_fuel(vstd::utf8::encode_utf8, 2);
    encode_utf8_first_scalar(seq![a]);
    encode_utf8_first_scalar(seq![b]);
    assert(seq![a].drop_first() =~= Seq::<char>::empty());
    assert(seq![b].drop_first() =~= Seq::<char>::empty());
    assert(ea =~= encode_scalar(a as u32));
    assert(eb =~= encode_scalar(b as u32));
    assert(ea[0] == s[0] && eb[0] == s[0]);
    assert(length_of_first_scalar(ea) == length_of_first_scalar(eb));
    assert(ea =~= eb);
    char_u32_cast(a, decode_first_scalar(ea));
    char_u32_cast(b, decode_first_scalar(eb));
}

/// Moving to the previous field undoes moving to the next one, and the other way round.
pub proof fn law_field_steps_undo(f: ModalField)
    ensures
        field_before(field_after(f)) == f,
        field_after(field_before(f)) == f,
{
}

/// Moving to the next field six times comes back to the field it started from.
pub proof fn law_fields_cycle(f: ModalField)
    ensures
        field_after(field_after(field_after(field_after(field_after(field_after(f)))))) == f,
{
}

/// In insert mode, typing a character and then pressing Backspace gives every field its text
/// back and the cursor its place, and the Backspace can always be handled.
pub proof fn law_backspace_undoes_typing(
    m: EventModal,
    ch: char,
    typed: EventModal,
    a1: ModalAction,
    erased: EventModal,
    a2: ModalAction,
)
    requires
        m.vim_mode == VimMode::Insert,
        m.cursor_pos <= m.focused_len(),
        m.cursor_on_boundary(m.cursor_pos as int),
        m.key_outcome(Key::Char(ch), typed, a1),
        typed.key_outcome(Key::Backspace, erased, a2),
    ensures
        typed.can_handle(Key::Backspace),
        forall|g: ModalField| #[trigger] erased.content(g) == m.content(g),
        erased.focused_field == m.focused_field,
        erased.cursor_pos == m.cursor_pos,
        erased.vim_mode == VimMode::Insert,
        erased.command_buffer == m.command_buffer,
        a1 == ModalAction::Nothing,
        a2 == ModalAction::Nothing,
{
    let f = m.focused_field;
    let c = m.cursor_pos as int;
    let b = utf8(m.content(f));
    let e = utf8(seq![ch]);
    let b1 = b.take(c) + e + b.skip(c);
    assert(utf8(typed.content(f)) == b1);
    assert(e.len() > 0) by {
        encode_utf8_first_scalar(seq![ch]);
    }
    assert(typed.cursor_pos == c + 1);
    assert(is_char_boundary(b1, c)) by {
        encode_utf8_valid_utf8(typed.content(f));
        encode_utf8_first_scalar(seq![ch]);
        assert(b1[c] == e[0]);
        is_char_boundary_iff_is_leading_byte(b1, c);
    }
    let rest = choose|rest: Seq<u8>| #[trigger] without_char_at(b1, c, rest) && typed.edited_to(erased, rest, c);
    let ch2 = choose|ch2: char| {
        &&& c + utf8(seq![ch2]).len() <= b1.len()
        &&& #[trigger] b1.subrange(c, c + utf8(seq![ch2]).len()) == utf8(seq![ch2])
        &&& rest == b1.take(c) + b1.skip(c + utf8(seq![ch2]).len())
    };
    let tail = b1.skip(c);
    assert(tail.take(e.len() as int) =~= e);
    assert(tail.take(utf8(seq![ch2]).len() as int) =~= utf8(seq![ch2]));
    lemma_encoding_prefix_unique(ch, ch2, tail);
    assert(rest =~= b);
    encode_utf8_decode_utf8(erased.content(f));
    encode_utf8_decode_utf8(m.content(f));
    assert forall|g: ModalField| #[trigger] erased.content(g) == m.content(g) by {
        if g != f {
        }
    }
}

/// Opening the form on an event and checking it gives the event back: its title, its start and
/// end (when both fall on a whole minute and the end comes after the start), and its category
/// name and description unless they are blank. Such a form can be checked with
/// `validate_and_create_event`.
pub proof fn law_edit_form_gives_event_back(e: Event, m: EventModal, r: Result<EventData, String>)
    requires
        e.start_time.is_valid(),
        e.end_time.is_valid(),
        e.start_time.second == 0,
        e.end_time.second == 0,
        e.start_time.seconds() < e.end_time.seconds(),
        !is_blank(e.title@),
        m.opened_for(e),
    ensures
        m.end_representable(),
        m.validated(r) ==> (r matches Ok(d) && {
            &&& d.title == e.title
            &&& d.start_time == e.start_time
            &&& d.end_time == e.end_time
            &&& match d.category {
                Some(c) => e.category matches Some(k) && c@ == k.name@ && !is_blank(k.name@),
                None => e.category matches Some(k) ==> is_blank(k.name@),
            }
            &&& match d.description {
                Some(x) => e.description matches Some(k) && x@ == k@ && !is_blank(k@),
                None => e.description matches Some(k) ==> is_blank(k@),
            }
        }),
{
    let s0 = e.start_time;
    let e0 = e.end_time;
    let diff = e0.seconds() - s0.seconds();
    let q = (e0.date.day_number() - s0.date.day_number()) * 1440 + (e0.hour - s0.hour) * 60 + (e0.minute - s0.minute);
    assert(diff == q * 60);
    assert(diff / 60 == q) by (nonlinear_arith)
        requires
            diff == q * 60,
    ;
    assert(crate::datetime::truncated_minutes(diff) == q);
    assert(q > 0);
    assert(m.form_duration() == q);
    assert(m.form_error() is None);
    assert(m.form_start() == Some(s0));
    lemma_valid_seconds_in_range(s0);
    lemma_valid_seconds_in_range(e0);
    assert(q <= MAX_SPAN_MINUTES) by (nonlinear_arith)
        requires
            diff == q * 60,
            seconds_in_range(s0.seconds()),
            seconds_in_range(e0.seconds()),
            diff == e0.seconds() - s0.seconds(),
    ;
    assert(s0.seconds() + q * 60 == e0.seconds());
    assert(m.end_representable());
    lemma_trimmed_empty(Seq::<char>::empty());
    if m.validated(r) {
        let d = r->Ok_0;
        lemma_seconds_injective(d.end_time, e0);
    }
}

/// A key press never changes which event the form edits, nor whether it is open: only opening,
/// clearing and closing the form do.
pub proof fn law_keys_keep_editing(m: EventModal, key: Key, after: EventModal, action: ModalAction)
    requires
        m.key_outcome(key, after, action),
    ensures
        after.editing_event_id == m.editing_event_id,
        after.active == m.active,
{
}

/// Every text field of the form holds ASCII characters only.
pub open spec fn fields_ascii(m: EventModal) -> bool {
    forall|f: ModalField| is_ascii_chars(#[trigger] m.content(f))
}

/// In an ASCII text, taking out the character at a position removes exactly one byte there.
proof fn lemma_ascii_char_removed(s: Seq<char>, c: int, rest: Seq<u8>)
    requires
        is_ascii_chars(s),
        0 <= c < s.len(),
        without_char_at(utf8(s), c, rest),
    ensures
        rest == utf8(s.remove(c)),
        is_ascii_chars(s.remove(c)),
{
    let b = utf8(s);
    is_ascii_chars_encode_utf8(s);
    let ch = choose|ch: char| {
        &&& c + utf8(seq![ch]).len() <= b.len()
        &&& #[trigger] b.subrange(c, c + utf8(seq![ch]).len()) == utf8(seq![ch])
        &&& rest == b.take(c) + b.skip(c + utf8(seq![ch]).len())
    };
    let e = utf8(seq![ch]);
    reveal_with_fuel(vstd::utf8::encode_utf8, 2);
    encode_utf8_first_scalar(seq![ch]);
    assert(seq![ch].drop_first() =~= Seq::<char>::empty());
    assert(e =~= encode_scalar(ch as u32));
    assert(e.len() > 0);
    assert(e[0] == b.subrange(c, c + e.len())[0]);
    assert(e[0] == b[c]);
    assert(e.len() == 1);
    let t = s.remove(c);
    assert(is_ascii_chars(t)) by {
        assert forall|i: int| 0 <= i < t.len() implies '\0' <= #[trigger] t[i] <= '\u{7f}' by {
            if i < c {
                assert(t[i] == s[i]);
            } else {
                assert(t[i] == s[i + 1]);
            }
        }
    }
    is_ascii_chars_encode_utf8(t);
    assert forall|i: int| 0 <= i < rest.len() implies rest[i] == utf8(t)[i] by {
        if i < c {
            assert(rest[i] == b[i]);
            assert(t[i] == s[i]);
        } else {
            assert(rest[i] == b[i + 1]);
            assert(t[i] == s[i + 1]);
        }
    }
    assert(rest =~= utf8(t));
}

/// In normal mode, on a form whose fields are ASCII with the cursor within the focused field,
/// every key can be handled, and leaves the fields ASCII and the cursor within the field that
/// is then focused.
pub proof fn law_normal_keys_keep_cursor_in_field(m: EventModal, key: Key, after: EventModal, action: ModalAction)
    requires
        m.vim_mode == VimMode::Normal,
        fields_ascii(m),
        m.cursor_pos <= m.focused_len(),
    ensures
        m.can_handle(key),
        m.key_outcome(key, after, action) ==> {
            &&& fields_ascii(after)
            &&& after.cursor_pos <= after.focused_len()
        },
{
    let f = m.focused_field;
    let c = m.cursor_pos as int;
    let b = utf8(m.content(f));
    assert(is_ascii_chars(m.content(f)));
    is_ascii_chars_encode_utf8(m.content(f));
    if key == Key::Char('x') && c < m.focused_len() {
        encode_utf8_valid_utf8(m.content(f));
        is_char_boundary_iff_not_is_continuation_byte(b, c);
        assert(b[c] == m.content(f)[c] as u8);
    }
    if m.key_outcome(key, after, action) {
        if key == Key::Char('x') && c < m.focused_len() {
            let rest = choose|rest: Seq<u8>| #[trigger] without_char_at(b, c, rest) && m.edited_to(
                after,
                rest,
                if c >= rest.len() && c > 0 { c - 1 } else { c },
            );
            lemma_ascii_char_removed(m.content(f), c, rest);
            let t = m.content(f).remove(c);
            encode_utf8_decode_utf8(after.content(f));
            encode_utf8_decode_utf8(t);
            assert(after.content(f) == t);
            is_ascii_chars_encode_utf8(t);
            assert forall|g: ModalField| is_ascii_chars(#[trigger] after.content(g)) by {
                if g != f {
                    assert(after.content(g) == m.content(g));
                }
            }
        } else if key == Key::Char('d') {
            encode_utf8_decode_utf8(after.content(f));
            assert(after.content(f) =~= Seq::<char>::empty());
            assert forall|g: ModalField| is_ascii_chars(#[trigger] after.content(g)) by {
                if g != f {
                    assert(after.content(g) == m.content(g));
                }
            }
        } else {
            assert forall|g: ModalField| is_ascii_chars(#[trigger] after.content(g)) by {
                assert(after.content(g) == m.content(g));
            }
        }
    }
}


/// Typing `:`, `w`, `q` in normal mode and pressing Enter saves the form, with every field as it
/// was, and leaves it in normal mode with an empty command line; `:w` does the same.
pub proof fn law_write_quit_saves(
    m: EventModal,
    m1: EventModal,
    a1: ModalAction,
    m2: EventModal,
    a2: ModalAction,
    m3: EventModal,
    a3: ModalAction,
    m4: EventModal,
    a4: ModalAction,
)
    requires
        m.vim_mode == VimMode::Normal,
        m.key_outcome(Key::Char(':'), m1, a1),
        m1.key_outcome(Key::Char('w'), m2, a2),
        m2.key_outcome(Key::Char('q'), m3, a3),
        m3.key_outcome(Key::Enter, m4, a4),
    ensures
        a4 == ModalAction::Save,
        m4.vim_mode == VimMode::Normal,
        m4.command_buffer@.len() == 0,
        forall|g: ModalField| #[trigger] m4.content(g) == m.content(g),
        m2.key_outcome(Key::Enter, m3, a3) ==> a3 == ModalAction::Save,
{
    reveal_strlit("w");
    reveal_strlit("wq");
    assert(m3.command_buffer@ =~= "wq"@);
    assert(m2.command_buffer@ =~= "w"@);
}

/// Executing the command line `wq` asks for the same action as `w`, saving; `q` and `q!` both
/// cancel. Whatever the rest of the form holds, Enter on these command lines gives these actions.
pub proof fn law_command_actions(m: EventModal, after: EventModal, action: ModalAction)
    requires
        m.vim_mode == VimMode::Command,
        m.key_outcome(Key::Enter, after, action),
    ensures
        m.command_buffer@ == "w"@ || m.command_buffer@ == "wq"@ ==> action == ModalAction::Save,
        m.command_buffer@ == "q"@ || m.command_buffer@ == "q!"@ ==> action == ModalAction::Cancel,
        command_action("wq"@) == command_action("w"@),
        command_action("q!"@) == command_action("q"@),
        command_action("w"@) != command_action("q"@),
        after.vim_mode == VimMode::Normal,
        after.command_buffer@.len() == 0,
{
    reveal_strlit("w");
    reveal_strlit("wq");
    reveal_strlit("q");
    reveal_strlit("q!");
    assert("q"@[0] != "w"@[0]);
    assert("q"@.len() != "wq"@.len());
    assert("q!"@[0] != "w"@[0]);
    assert("q!"@[1] != "wq"@[1]);
}

} // verus!
