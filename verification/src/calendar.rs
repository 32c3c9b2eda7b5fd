//! The calendar's state: the events, the date in view and the view mode.
use crate::datetime::{day_number_in_range, lemma_day_number_injective, today, Date, MAX_YEAR, MIN_YEAR};
use crate::events::{deref_events, first_with_id, has_id, position_of_id, Event};
use crate::sorting::{
    lemma_insert_position, lemma_sort_by_start, lemma_sort_sorted, sort_by_start, sort_in_place, sorted_by_start,
};
use vstd::prelude::*;

verus! {

/// The span of time that the calendar shows.
#[derive(Clone, Copy, Debug, PartialEq, Eq, Structural)]
pub enum ViewMode {
    Day,
    Week,
    Month,
    Year,
}

impl Default for ViewMode {
    fn default() -> (r: Self)
        ensures
            r == ViewMode::Month,
    {
        ViewMode::Month
    }
}

/// The calendar: the date in view, the view mode, the events (kept in order of start) and the
/// selected event.
#[derive(Clone, Debug)]
pub struct CalendarState {
    pub current_date: Date,
    pub view_mode: ViewMode,
    pub events: Vec<Event>,
    pub selected_event_index: Option<usize>,
}

/// The day `day_count` days after `d` (before it, when negative); it must exist.
fn shift_date(d: Date, day_count: i64) -> (r: Date)
    requires
        d.is_valid(),
        -7 <= day_count <= 7,
        day_number_in_range(d.day_number() + day_count),
    ensures
        r.is_valid(),
        r.day_number() == d.day_number() + day_count,
{
    d.checked_add_days(day_count).unwrap()
}

/// The first day of the month after `d`'s.
pub open spec fn first_of_next_month(d: Date) -> Date {
    if d.month == 12 {
        Date { year: (d.year + 1) as i32, month: 1, day: 1 }
    } else {
        Date { year: d.year, month: (d.month + 1) as u32, day: 1 }
    }
}

/// The first day of the month before `d`'s.
pub open spec fn first_of_previous_month(d: Date) -> Date {
    if d.month == 1 {
        Date { year: (d.year - 1) as i32, month: 12, day: 1 }
    } else {
        Date { year: d.year, month: (d.month - 1) as u32, day: 1 }
    }
}

/// The index that selecting the next event moves to, among `len` events.
pub open spec fn next_selection(current: Option<usize>, len: nat) -> Option<usize> {
    if len == 0 {
        None
    } else {
        Some(match current {
            Some(i) => if i >= len - 1 { 0 } else { (i + 1) as usize },
            None => 0,
        })
    }
}

/// The index that selecting the previous event moves to, among `len` events.
pub open spec fn previous_selection(current: Option<usize>, len: nat) -> Option<usize> {
    if len == 0 {
        None
    } else {
        Some(match current {
            Some(i) => if i == 0 { (len - 1) as usize } else { (i - 1) as usize },
            None => (len - 1) as usize,
        })
    }
}

impl CalendarState {
    /// The date in view moves one period forward without leaving the range of dates.
    pub open spec fn can_advance(self) -> bool {
        match self.view_mode {
            ViewMode::Day => day_number_in_range(self.current_date.day_number() + 1),
            ViewMode::Week => day_number_in_range(self.current_date.day_number() + 7),
            ViewMode::Month => self.current_date.month != 12 || self.current_date.year < MAX_YEAR,
            ViewMode::Year => self.current_date.year < MAX_YEAR,
        }
    }

    /// The date in view moves one period back without leaving the range of dates.
    pub open spec fn can_retreat(self) -> bool {
        match self.view_mode {
            ViewMode::Day => day_number_in_range(self.current_date.day_number() - 1),
            ViewMode::Week => day_number_in_range(self.current_date.day_number() - 7),
            ViewMode::Month => self.current_date.month != 1 || self.current_date.year > MIN_YEAR,
            ViewMode::Year => self.current_date.year > MIN_YEAR,
        }
    }

    /// `after` is one period past `before` in `mode`.
    pub open spec fn advanced(mode: ViewMode, before: Date, after: Date) -> bool {
        match mode {
            ViewMode::Day => after.is_valid() && after.day_number() == before.day_number() + 1,
            ViewMode::Week => after.is_valid() && after.day_number() == before.day_number() + 7,
            ViewMode::Month => after == first_of_next_month(before),
            ViewMode::Year => after == (Date { year: (before.year + 1) as i32, month: 1, day: 1 }),
        }
    }

    /// `after` is one period before `before` in `mode`.
    pub open spec fn retreated(mode: ViewMode, before: Date, after: Date) -> bool {
        match mode {
            ViewMode::Day => after.is_valid() && after.day_number() == before.day_number() - 1,
            ViewMode::Week => after.is_valid() && after.day_number() == before.day_number() - 7,
            ViewMode::Month => after == first_of_previous_month(before),
            ViewMode::Year => after == (Date { year: (before.year - 1) as i32, month: 1, day: 1 }),
        }
    }

    /// A calendar showing today's month (as `today` reads it), with no events.
    pub fn new() -> (r: Self)
        ensures
            r.current_date.is_valid(),
            r.view_mode == ViewMode::Month,
            r.events@.len() == 0,
            r.selected_event_index is None,
    {
        CalendarState {
            current_date: today(),
            view_mode: ViewMode::Month,
            events: Vec::new(),
            selected_event_index: None,
        }
    }

    /// Adds an event, keeping the events in stable order of start.
    pub fn add_event(&mut self, event: Event)
        ensures
            final(self).events@ == sort_by_start(old(self).events@.push(event)),
            sorted_by_start(final(self).events@),
            final(self).events@.to_multiset() =~= old(self).events@.push(event).to_multiset(),
            final(self).current_date == old(self).current_date,
            final(self).view_mode == old(self).view_mode,
            final(self).selected_event_index == old(self).selected_event_index,
    {
        self.events.push(event);
        self.sort_events();
        proof {
            lemma_sort_by_start(old(self).events@.push(event));
        }
    }

    /// Removes the first event with the given identifier, and returns it.
    pub fn remove_event(&mut self, event_id: &str) -> (r: Option<Event>)
        ensures
            match r {
                Some(e) => exists|i: int|
                    first_with_id(old(self).events@, event_id@, i) && e == old(self).events@[i]
                        && final(self).events@ == old(self).events@.remove(i),
                None => !has_id(old(self).events@, event_id@) && final(self).events@ == old(self).events@,
            },
            final(self).current_date == old(self).current_date,
            final(self).view_mode == old(self).view_mode,
            final(self).selected_event_index == old(self).selected_event_index,
    {
        match position_of_id(&self.events, event_id) {
            Some(pos) => Some(self.events.remove(pos)),
            None => None,
        }
    }

    /// The first event with the given identifier.
    pub fn get_event(&self, event_id: &str) -> (r: Option<&Event>)
        ensures
            match r {
                Some(e) => exists|i: int| first_with_id(self.events@, event_id@, i) && *e == self.events@[i],
                None => !has_id(self.events@, event_id@),
            },
    {
        match position_of_id(&self.events, event_id) {
            Some(pos) => Some(&self.events[pos]),
            None => None,
        }
    }

    /// The first event with the given identifier, to change in place.
    pub fn get_event_mut(&mut self, event_id: &str) -> (r: Option<&mut Event>)
        ensures
            match r {
                Some(e) => exists|i: int| {
                    &&& first_with_id(old(self).events@, event_id@, i)
                    &&& *e == old(self).events@[i]
                    &&& final(self).events@ == old(self).events@.update(i, *final(e))
                },
                None => !has_id(old(self).events@, event_id@) && final(self).events@ == old(self).events@,
            },
            final(self).current_date == old(self).current_date,
            final(self).view_mode == old(self).view_mode,
            final(self).selected_event_index == old(self).selected_event_index,
    {
        match position_of_id(&self.events, event_id) {
            Some(pos) => Some(&mut self.events[pos]),
            None => None,
        }
    }

    /// The events that start on `date`, in their order.
    pub fn events_on_date(&self, date: Date) -> (r: Vec<&Event>)
        ensures
            deref_events(r@) == self.events@.filter(|e: Event| e.start_time.date == date),
    {
        let ghost pred = |e: Event| e.start_time.date == date;
        let mut r: Vec<&Event> = Vec::new();
        let mut i: usize = 0;
        while i < self.events.len()
            invariant
                0 <= i <= self.events@.len(),
                pred == (|e: Event| e.start_time.date == date),
                deref_events(r@) == self.events@.take(i as int).filter(pred),
            decreases self.events.len() - i,
        {
            let e = &self.events[i];
            assert(self.events@.take(i + 1).drop_last() =~= self.events@.take(i as int));
            let ghost before = r@;
            proof {
                assert(self.events@.take(i + 1) =~= self.events@.take(i as int).push(self.events@[i as int]));
                self.events@.take(i as int).lemma_filter_push(self.events@[i as int], pred);
            }
            assert(self.events@.take(i + 1).last() == self.events@[i as int]);
            if e.start_time.date == date {
                r.push(e);
                assert(deref_events(r@) =~= deref_events(before).push(*e));
            }
            assert(deref_events(r@) =~= self.events@.take(i + 1).filter(pred));
            i = i + 1;
        }
        assert(self.events@.take(i as int) =~= self.events@);
        r
    }

    /// The events that start on a day from `start` to `end`, both included, in their order.
    pub fn events_in_range(&self, start: Date, end: Date) -> (r: Vec<&Event>)
        ensures
            deref_events(r@) == self.events@.filter(
                |e: Event| !e.start_time.date.before(start) && !end.before(e.start_time.date),
            ),
    {
        let ghost pred = |e: Event| !e.start_time.date.before(start) && !end.before(e.start_time.date);
        let mut r: Vec<&Event> = Vec::new();
        let mut i: usize = 0;
        while i < self.events.len()
            invariant
                0 <= i <= self.events@.len(),
                pred == (|e: Event| !e.start_time.date.before(start) && !end.before(e.start_time.date)),
                deref_events(r@) == self.events@.take(i as int).filter(pred),
            decreases self.events.len() - i,
        {
            let e = &self.events[i];
            assert(self.events@.take(i + 1).drop_last() =~= self.events@.take(i as int));
            let d = e.start_time.date;
            let ghost before = r@;
            proof {
                assert(self.events@.take(i + 1) =~= self.events@.take(i as int).push(self.events@[i as int]));
                self.events@.take(i as int).lemma_filter_push(self.events@[i as int], pred);
            }
            assert(self.events@.take(i + 1).last() == self.events@[i as int]);
            if start.no_later_than(&d) && d.no_later_than(&end) {
                r.push(e);
                assert(deref_events(r@) =~= deref_events(before).push(*e));
            }
            assert(deref_events(r@) =~= self.events@.take(i + 1).filter(pred));
            i = i + 1;
        }
        assert(self.events@.take(i as int) =~= self.events@);
        r
    }

    pub fn set_view_mode(&mut self, mode: ViewMode)
        ensures
            *final(self) == (CalendarState { view_mode: mode, ..*old(self) }),
    {
        self.view_mode = mode;
    }

    /// Moves the date in view one period forward: a day, a week, to the first of the next month,
    /// or to the first of January of the next year.
    pub fn next_period(&mut self)
        requires
            old(self).current_date.is_valid(),
            old(self).can_advance(),
        ensures
            Self::advanced(old(self).view_mode, old(self).current_date, final(self).current_date),
            final(self).current_date.is_valid(),
            final(self).view_mode == old(self).view_mode,
            final(self).events == old(self).events,
            final(self).selected_event_index == old(self).selected_event_index,
    {
        let d = self.current_date;
        self.current_date = match self.view_mode {
            ViewMode::Day => shift_date(d, 1),
            ViewMode::Week => shift_date(d, 7),
            ViewMode::Month => {
                if d.month == 12 {
                    Date::from_ymd_opt(d.year + 1, 1, 1).unwrap()
                } else {
                    Date::from_ymd_opt(d.year, d.month + 1, 1).unwrap()
                }
            },
            ViewMode::Year => Date::from_ymd_opt(d.year + 1, 1, 1).unwrap(),
        };
    }

    /// Moves the date in view one period back: a day, a week, to the first of the previous month,
    /// or to the first of January of the previous year.
    pub fn previous_period(&mut self)
        requires
            old(self).current_date.is_valid(),
            old(self).can_retreat(),
        ensures
            Self::retreated(old(self).view_mode, old(self).current_date, final(self).current_date),
            final(self).current_date.is_valid(),
            final(self).view_mode == old(self).view_mode,
            final(self).events == old(self).events,
            final(self).selected_event_index == old(self).selected_event_index,
    {
        let d = self.current_date;
        self.current_date = match self.view_mode {
            ViewMode::Day => shift_date(d, -1),
            ViewMode::Week => shift_date(d, -7),
            ViewMode::Month => {
                if d.month == 1 {
                    Date::from_ymd_opt(d.year - 1, 12, 1).unwrap()
                } else {
                    Date::from_ymd_opt(d.year, d.month - 1, 1).unwrap()
                }
            },
            ViewMode::Year => Date::from_ymd_opt(d.year - 1, 1, 1).unwrap(),
        };
    }

    /// Shows today's date, as `today` reads it: 1970-01-01 where the clock gives no reading.
    pub fn go_to_today(&mut self)
        ensures
            final(self).current_date.is_valid(),
            final(self).view_mode == old(self).view_mode,
            final(self).events == old(self).events,
            final(self).selected_event_index == old(self).selected_event_index,
    {
        self.current_date = today();
    }

    /// Selects the next event, wrapping from the last to the first.
    pub fn select_next_event(&mut self)
        ensures
            final(self).selected_event_index == next_selection(
                old(self).selected_event_index,
                old(self).events@.len(),
            ),
            final(self).current_date == old(self).current_date,
            final(self).view_mode == old(self).view_mode,
            final(self).events == old(self).events,
    {
        if self.events.len() == 0 {
            self.selected_event_index = None;
            return;
        }
        self.selected_event_index = Some(
            match self.selected_event_index {
                Some(index) => {
                    if index >= self.events.len() - 1 {
                        0
                    } else {
                        index + 1
                    }
                },
                None => 0,
            },
        );
    }

    /// Selects the previous event, wrapping from the first to the last.
    pub fn select_previous_event(&mut self)
        ensures
            final(self).selected_event_index == previous_selection(
                old(self).selected_event_index,
                old(self).events@.len(),
            ),
            final(self).current_date == old(self).current_date,
            final(self).view_mode == old(self).view_mode,
            final(self).events == old(self).events,
    {
        if self.events.len() == 0 {
            self.selected_event_index = None;
            return;
        }
        self.selected_event_index = Some(
            match self.selected_event_index {
                Some(index) => {
                    if index == 0 {
                        self.events.len() - 1
                    } else {
                        index - 1
                    }
                },
                None => self.events.len() - 1,
            },
        );
    }

    /// The selected event, when the selection points at one.
    pub fn selected_event(&self) -> (r: Option<&Event>)
        ensures
            match self.selected_event_index {
                Some(i) => if i < self.events@.len() {
                    r matches Some(e) && *e == self.events@[i as int]
                } else {
                    r is None
                },
                None => r is None,
            },
    {
        match self.selected_event_index {
            Some(index) => {
                if index < self.events.len() {
                    Some(&self.events[index])
                } else {
                    None
                }
            },
            None => None,
        }
    }

    /// Puts the events in stable order of start.
    pub fn sort_events(&mut self)
        ensures
            final(self).events@ == sort_by_start(old(self).events@),
            final(self).current_date == old(self).current_date,
            final(self).view_mode == old(self).view_mode,
            final(self).selected_event_index == old(self).selected_event_index,
    {
        sort_in_place(&mut self.events);
    }

    /// The number of events.
    pub fn event_count(&self) -> (r: usize)
        ensures
            r == self.events@.len(),
    {
        self.events.len()
    }
}

impl Default for CalendarState {
    fn default() -> (r: Self)
        ensures
            r.current_date.is_valid(),
            r.view_mode == ViewMode::Month,
            r.events@.len() == 0,
            r.selected_event_index is None,
    {
        Self::new()
    }
}


/// The start of the period that `d` lies in: `d` itself for a day or week, the first of its month,
/// or the first of January of its year.
pub open spec fn period_start(mode: ViewMode, d: Date) -> Date {
    match mode {
        ViewMode::Day | ViewMode::Week => d,
        ViewMode::Month => Date { year: d.year, month: d.month, day: 1 },
        ViewMode::Year => Date { year: d.year, month: 1, day: 1 },
    }
}

/// Going back a period after going forward one returns to the start of the period that the date
/// was in: to the same date in day and week view.
pub proof fn law_previous_undoes_next(mode: ViewMode, d: Date, a: Date, b: Date)
    requires
        d.is_valid(),
        CalendarState::advanced(mode, d, a),
        CalendarState::retreated(mode, a, b),
    ensures
        b == period_start(mode, d),
{
    match mode {
        ViewMode::Day | ViewMode::Week => {
            lemma_day_number_injective(b, d);
        },
        _ => {},
    }
}

/// Going forward a period after going back one returns to the start of the period that the date
/// was in: to the same date in day and week view.
pub proof fn law_next_undoes_previous(mode: ViewMode, d: Date, a: Date, b: Date)
    requires
        d.is_valid(),
        CalendarState::retreated(mode, d, a),
        CalendarState::advanced(mode, a, b),
    ensures
        b == period_start(mode, d),
{
    match mode {
        ViewMode::Day | ViewMode::Week => {
            lemma_day_number_injective(b, d);
        },
        _ => {},
    }
}

/// Selecting the next event always lands on one of the events, when there are any; selecting the
/// previous one does when the selection was on an event or empty.
pub proof fn law_selection_in_bounds(current: Option<usize>, len: nat)
    requires
        0 < len <= usize::MAX,
    ensures
        next_selection(current, len) matches Some(i) && i < len,
        (current matches Some(c) ==> c < len) ==> (previous_selection(current, len) matches Some(i) && i < len),
{
}

/// Selecting the previous event after the next one, or the next after the previous one, returns
/// to the event that was selected.
pub proof fn law_selection_steps_undo(i: usize, len: nat)
    requires
        i < len,
        len <= usize::MAX,
    ensures
        previous_selection(next_selection(Some(i), len), len) == Some(i),
        next_selection(previous_selection(Some(i), len), len) == Some(i),
{
}

/// A sequence that holds an identifier has a first position holding it.
pub proof fn lemma_first_with_id_exists(s: Seq<Event>, id: Seq<char>)
    requires
        has_id(s, id),
    ensures
        exists|i: int| first_with_id(s, id, i),
    decreases s.len(),
{
    let u = s.drop_last();
    if has_id(u, id) {
        lemma_first_with_id_exists(u, id);
        let i = choose|i: int| first_with_id(u, id, i);
        assert forall|k: int| 0 <= k < i implies s[k].id@ != id by {
            assert(u[k] == s[k]);
        }
        assert(s[i] == u[i]);
        assert(first_with_id(s, id, i));
    } else {
        let j = choose|j: int| 0 <= j < s.len() && s[j].id@ == id;
        if j < u.len() {
            assert(u[j].id@ == id);
        }
        assert forall|k: int| 0 <= k < s.len() - 1 implies s[k].id@ != id by {
            assert(u[k] == s[k]);
        }
        assert(first_with_id(s, id, s.len() - 1));
    }
}

/// Removing an event by its identifier right after adding it (under an identifier that no other
/// event has) hands back that event and leaves the other events as they were: the same events in
/// any case, and in the same order when they were in order of start, as adding keeps them.
pub proof fn law_remove_undoes_add(events: Seq<Event>, e: Event)
    requires
        !has_id(events, e.id@),
    ensures
        exists|i: int| {
            &&& first_with_id(sort_by_start(events.push(e)), e.id@, i)
            &&& sort_by_start(events.push(e))[i] == e
            &&& sort_by_start(events.push(e)).remove(i).to_multiset() =~= events.to_multiset()
            &&& sorted_by_start(events) ==> sort_by_start(events.push(e)).remove(i) == events
        },
{
    broadcast use vstd::seq_lib::group_to_multiset_ensures;
    broadcast use vstd::multiset::group_multiset_axioms;

    let pushed = events.push(e);
    let added = sort_by_start(pushed);
    lemma_sort_by_start(pushed);
    assert(pushed[events.len() as int] == e);
    assert(pushed.contains(e));
    assert(added.to_multiset().count(e) > 0);
    assert(added.contains(e));
    let k = choose|k: int| 0 <= k < added.len() && added[k] == e;
    assert(has_id(added, e.id@));
    lemma_first_with_id_exists(added, e.id@);
    let i = choose|i: int| first_with_id(added, e.id@, i);
    let x = added[i];
    assert(added.to_multiset().count(x) > 0);
    assert(pushed.to_multiset().count(x) > 0);
    assert(pushed.contains(x));
    let j = choose|j: int| 0 <= j < pushed.len() && pushed[j] == x;
    if j < events.len() {
        assert(events[j] == x);
        assert(false);
    }
    assert(x == e);
    assert(added.remove(i).to_multiset() =~= events.to_multiset());
    if sorted_by_start(events) {
        assert(pushed.drop_last() =~= events);
        lemma_sort_sorted(events);
        let p = lemma_insert_position(events, e);
        assert(added == events.take(p) + seq![e] + events.skip(p));
        assert(added[p] == e);
        assert forall|q: int| 0 <= q < p implies added[q].id@ != e.id@ by {
            assert(added[q] == events[q]);
        }
        assert(first_with_id(added, e.id@, p));
        assert(i == p);
        assert(added.remove(i) =~= events);
    }
}

} // verus!
