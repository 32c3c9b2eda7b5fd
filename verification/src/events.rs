//! Calendar events and the records attached to them.
use crate::datetime::{chrono_minutes_between, truncated_minutes, DateTime};
use crate::sorting::StartOrdered;
use crate::text::{hex_text, is_hex_digit_char, lemma_hex_text_form, lemma_hex_text_injective, u128_hex_text};
use std::time::{SystemTime, UNIX_EPOCH};
use vstd::prelude::*;

verus! {

/// How often a recurring event repeats.
#[derive(Clone, Copy, Debug, PartialEq, Eq, Structural)]
pub enum RecurrenceFrequency {
    Daily,
    Weekly,
    Monthly,
    Yearly,
}

/// When and how often an event repeats.
#[derive(Clone, Copy, Debug, PartialEq, Eq, Structural)]
pub struct RecurringRules {
    pub frequency: RecurrenceFrequency,
    pub interval: u32,
    pub count: Option<u32>,
    pub until: Option<DateTime>,
}

impl RecurringRules {
    pub fn new(frequency: RecurrenceFrequency, interval: u32) -> (r: Self)
        ensures
            r == (RecurringRules { frequency, interval, count: None, until: None }),
    {
        RecurringRules { frequency, interval, count: None, until: None }
    }

    pub fn with_count(self, count: u32) -> (r: Self)
        ensures
            r == (RecurringRules { count: Some(count), ..self }),
    {
        let mut r = self;
        r.count = Some(count);
        r
    }

    pub fn with_until(self, until: DateTime) -> (r: Self)
        ensures
            r == (RecurringRules { until: Some(until), ..self }),
    {
        let mut r = self;
        r.until = Some(until);
        r
    }
}

/// A named group of events, with an optional colour name.
#[derive(Clone, Debug, PartialEq, Eq)]
pub struct Category {
    pub name: String,
    pub color: Option<String>,
}

impl Category {
    pub fn new(name: String) -> (r: Self)
        ensures
            r.name == name,
            r.color is None,
    {
        Category { name, color: None }
    }

    pub fn with_color(self, color: String) -> (r: Self)
        ensures
            r.name == self.name,
            r.color == Some(color),
    {
        let mut r = self;
        r.color = Some(color);
        r
    }
}

/// A reminder some minutes before an event, with an optional message.
#[derive(Clone, Debug, PartialEq, Eq)]
pub struct Reminder {
    pub minutes_before: u32,
    pub message: Option<String>,
}

impl Reminder {
    pub fn new(minutes_before: u32) -> (r: Self)
        ensures
            r.minutes_before == minutes_before,
            r.message is None,
    {
        Reminder { minutes_before, message: None }
    }

    pub fn with_message(self, message: String) -> (r: Self)
        ensures
            r.minutes_before == self.minutes_before,
            r.message == Some(message),
    {
        let mut r = self;
        r.message = Some(message);
        r
    }
}

/// Reads the system clock: nanoseconds since the Unix epoch, or nothing when the clock reads
/// earlier than the epoch. Nothing is promised of the value: it depends on the time.
#[verifier::external_body]
fn clock_nanos() -> (r: Option<u128>) {
    match SystemTime::now().duration_since(UNIX_EPOCH) {
        Ok(d) => Some(d.as_nanos()),
        Err(_) => None,
    }
}

/// The identifier made of a clock reading: its nanoseconds since the Unix epoch in lower-case
/// hexadecimal, or `0` for a clock that read earlier than the epoch.
pub open spec fn clock_id(reading: Option<u128>) -> Seq<char> {
    hex_text(
        match reading {
            Some(n) => n as nat,
            None => 0,
        },
    )
}

/// The identifier for a clock reading (see `clock_id`).
pub fn id_from_clock(reading: Option<u128>) -> (r: String)
    ensures
        r@ == clock_id(reading),
{
    let n: u128 = match reading {
        Some(n) => n,
        None => 0,
    };
    u128_hex_text(n)
}

/// A fresh identifier: the identifier of the clock's present reading.
pub fn generate() -> (r: String)
    ensures
        exists|reading: Option<u128>| r@ == clock_id(reading),
{
    let reading = clock_nanos();
    let r = id_from_clock(reading);
    assert(r@ == clock_id(reading));
    r
}

/// The identifiers of different clock readings differ.
pub proof fn law_ids_of_different_readings_differ(a: u128, b: u128)
    requires
        a != b,
    ensures
        clock_id(Some(a)) != clock_id(Some(b)),
{
    lemma_hex_text_injective(a as nat, b as nat);
}

/// An identifier is not empty, holds only the digits `0`-`9` and `a`-`f`, and starts with `0`
/// only when it is `0`.
pub proof fn law_id_form(reading: Option<u128>)
    ensures
        clock_id(reading).len() > 0,
        forall|i: int| 0 <= i < clock_id(reading).len() ==> is_hex_digit_char(#[trigger] clock_id(reading)[i]),
        clock_id(reading)[0] == '0' ==> clock_id(reading) == seq!['0'],
{
    let n: nat = match reading {
        Some(n) => n as nat,
        None => 0,
    };
    lemma_hex_text_form(n);
}


/// A calendar event.
#[derive(Clone, Debug)]
pub struct Event {
    pub id: String,
    pub title: String,
    pub start_time: DateTime,
    pub end_time: DateTime,
    pub description: Option<String>,
    pub location: Option<String>,
    pub recurring_rules: Option<RecurringRules>,
    pub category: Option<Category>,
    pub reminders: Vec<Reminder>,
}

impl Event {
    /// A new event with a fresh identifier and nothing but a title and its times.
    pub fn new(title: String, start_time: DateTime, end_time: DateTime) -> (r: Self)
        ensures
            exists|reading: Option<u128>| r.id@ == clock_id(reading),
            r.title == title,
            r.start_time == start_time,
            r.end_time == end_time,
            r.description is None,
            r.location is None,
            r.recurring_rules is None,
            r.category is None,
            r.reminders@.len() == 0,
    {
        Event {
            id: generate(),
            title,
            start_time,
            end_time,
            description: None,
            location: None,
            recurring_rules: None,
            category: None,
            reminders: Vec::new(),
        }
    }

    pub fn with_description(self, description: String) -> (r: Self)
        ensures
            r == (Event { description: Some(description), ..self }),
    {
        let mut r = self;
        r.description = Some(description);
        r
    }

    pub fn with_location(self, location: String) -> (r: Self)
        ensures
            r == (Event { location: Some(location), ..self }),
    {
        let mut r = self;
        r.location = Some(location);
        r
    }

    pub fn with_recurring_rules(self, rules: RecurringRules) -> (r: Self)
        ensures
            r == (Event { recurring_rules: Some(rules), ..self }),
    {
        let mut r = self;
        r.recurring_rules = Some(rules);
        r
    }

    pub fn with_category(self, category: Category) -> (r: Self)
        ensures
            r == (Event { category: Some(category), ..self }),
    {
        let mut r = self;
        r.category = Some(category);
        r
    }

    pub fn add_reminder(self, reminder: Reminder) -> (r: Self)
        ensures
            r.reminders@ == self.reminders@.push(reminder),
            r == (Event { reminders: r.reminders, ..self }),
    {
        let mut r = self;
        r.reminders.push(reminder);
        r
    }

    /// Whether the event repeats.
    pub fn is_recurring(&self) -> (r: bool)
        ensures
            r == self.recurring_rules is Some,
    {
        self.recurring_rules.is_some()
    }

    /// Whole minutes from the start to the end, rounded toward zero.
    pub fn duration_minutes(&self) -> (r: i64)
        requires
            self.start_time.is_valid(),
            self.end_time.is_valid(),
        ensures
            r == truncated_minutes(self.end_time.seconds() - self.start_time.seconds()),
    {
        chrono_minutes_between(self.start_time, self.end_time)
    }
}


impl StartOrdered for Event {
    open spec fn start_key(&self) -> int {
        self.start_time.sort_key()
    }

    fn starts_no_later_than(&self, other: &Self) -> (r: bool) {
        self.start_time.no_later_than(&other.start_time)
    }
}

impl<'a> StartOrdered for &'a Event {
    open spec fn start_key(&self) -> int {
        self.start_time.sort_key()
    }

    fn starts_no_later_than(&self, other: &Self) -> (r: bool) {
        self.start_time.no_later_than(&other.start_time)
    }
}

/// The events that a sequence of references points to.
pub open spec fn deref_events<'a>(s: Seq<&'a Event>) -> Seq<Event> {
    s.map_values(|e: &'a Event| *e)
}

/// `i` is the first position in `s` of an event with identifier `id`.
pub open spec fn first_with_id(s: Seq<Event>, id: Seq<char>, i: int) -> bool {
    &&& 0 <= i < s.len()
    &&& s[i].id@ == id
    &&& forall|k: int| 0 <= k < i ==> s[k].id@ != id
}

pub open spec fn has_id(s: Seq<Event>, id: Seq<char>) -> bool {
    exists|i: int| 0 <= i < s.len() && s[i].id@ == id
}

/// The position of the first event in `events` with identifier `id`, if there is one.
pub fn position_of_id(events: &Vec<Event>, id: &str) -> (r: Option<usize>)
    ensures
        match r {
            Some(i) => first_with_id(events@, id@, i as int),
            None => !has_id(events@, id@),
        },
{
    let mut i: usize = 0;
    while i < events.len()
        invariant
            0 <= i <= events@.len(),
            forall|k: int| 0 <= k < i ==> events@[k].id@ != id@,
        decreases events.len() - i,
    {
        if crate::text::str_equal(events[i].id.as_str(), id) {
            return Some(i);
        }
        i = i + 1;
    }
    None
}

} // verus!
