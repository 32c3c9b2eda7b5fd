//! The day, week, month and year views: what each shows as selected, and how it moves.
use crate::calendar::{first_of_next_month, CalendarState};
use crate::datetime::{
    day_number_in_range, days_from_sunday, format_month_day, format_month_day_year,
    lemma_day_number_injective, lemma_month_end_then_next, lemma_valid_date_in_range,
    month_day_text, month_day_year_text, month_length, short_month_name, today, valid_ymd, Date,
    MAX_DAY_SHIFT, MAX_YEAR, MIN_YEAR,
};
use crate::events::{deref_events, Event};
use crate::text::string_push_str;
use vstd::prelude::*;

verus! {

/// The index that selecting the next of `count` events moves to in a view.
pub open spec fn view_next_selection(current: Option<usize>, count: nat) -> Option<usize> {
    if count == 0 {
        None
    } else {
        Some(match current {
            Some(i) => if i + 1 < count { (i + 1) as usize } else { 0 },
            None => 0,
        })
    }
}

/// The index that selecting the previous of `count` events moves to in a view.
pub open spec fn view_previous_selection(current: Option<usize>, count: nat) -> Option<usize> {
    if count == 0 {
        None
    } else {
        Some(match current {
            Some(i) => if i == 0 { (count - 1) as usize } else { (i - 1) as usize },
            None => (count - 1) as usize,
        })
    }
}

fn next_in_view(current: Option<usize>, count: usize) -> (r: Option<usize>)
    ensures
        r == view_next_selection(current, count as nat),
{
    if count == 0 {
        return None;
    }
    Some(match current {
        Some(idx) => if idx < count - 1 { idx + 1 } else { 0 },
        None => 0,
    })
}

fn previous_in_view(current: Option<usize>, count: usize) -> (r: Option<usize>)
    ensures
        r == view_previous_selection(current, count as nat),
{
    if count == 0 {
        return None;
    }
    Some(match current {
        Some(idx) => if idx == 0 { count - 1 } else { idx - 1 },
        None => count - 1,
    })
}

/// The date `days` days from `d`, or `d` itself when that day is out of range.
pub open spec fn shifted_or_same(d: Date, days: int, r: Date) -> bool {
    if day_number_in_range(d.day_number() + days) {
        r.is_valid() && r.day_number() == d.day_number() + days
    } else {
        r == d
    }
}

/// Moves `d` by `days` days, keeping it where the move would leave the range of dates.
fn shift_or_keep(d: Date, days: i64) -> (r: Date)
    requires
        d.is_valid(),
        -MAX_DAY_SHIFT <= days <= MAX_DAY_SHIFT,
    ensures
        shifted_or_same(d, days as int, r),
        r.is_valid(),
{
    match d.checked_add_days(days) {
        Some(x) => x,
        None => d,
    }
}

/// The view of one day.
#[derive(Clone, Copy, Debug)]
pub struct DayView {
    pub selected_date: Date,
    pub selected_event_index: Option<usize>,
}

impl DayView {
    /// A view of today (as `today` reads it), with no event selected.
    pub fn new() -> (r: Self)
        ensures
            r.selected_date.is_valid(),
            r.selected_event_index is None,
    {
        DayView { selected_date: today(), selected_event_index: None }
    }

    pub fn select_date(&mut self, date: Date)
        ensures
            final(self).selected_date == date,
            final(self).selected_event_index == old(self).selected_event_index,
    {
        self.selected_date = date;
    }

    /// Moves the selected date by `days` days, unless that leaves the range of dates.
    pub fn move_selection(&mut self, days: i64)
        requires
            old(self).selected_date.is_valid(),
            -MAX_DAY_SHIFT <= days <= MAX_DAY_SHIFT,
        ensures
            shifted_or_same(old(self).selected_date, days as int, final(self).selected_date),
            final(self).selected_event_index == old(self).selected_event_index,
    {
        self.selected_date = shift_or_keep(self.selected_date, days);
    }

    pub fn move_to_next_day(&mut self)
        requires
            old(self).selected_date.is_valid(),
        ensures
            shifted_or_same(old(self).selected_date, 1, final(self).selected_date),
            final(self).selected_event_index == old(self).selected_event_index,
    {
        self.selected_date = shift_or_keep(self.selected_date, 1);
    }

    pub fn move_to_prev_day(&mut self)
        requires
            old(self).selected_date.is_valid(),
        ensures
            shifted_or_same(old(self).selected_date, -1, final(self).selected_date),
            final(self).selected_event_index == old(self).selected_event_index,
    {
        self.selected_date = shift_or_keep(self.selected_date, -1);
    }

    pub fn jump_to_today(&mut self)
        ensures
            final(self).selected_date.is_valid(),
            final(self).selected_event_index == old(self).selected_event_index,
    {
        self.selected_date = today();
    }

    pub fn select_next_event(&mut self, event_count: usize)
        ensures
            final(self).selected_event_index == view_next_selection(old(self).selected_event_index, event_count as nat),
            final(self).selected_date == old(self).selected_date,
    {
        self.selected_event_index = next_in_view(self.selected_event_index, event_count);
    }

    pub fn select_prev_event(&mut self, event_count: usize)
        ensures
            final(self).selected_event_index == view_previous_selection(old(self).selected_event_index, event_count as nat),
            final(self).selected_date == old(self).selected_date,
    {
        self.selected_event_index = previous_in_view(self.selected_event_index, event_count);
    }
}

impl DayView {
    /// The events on the selected date that start within hour `hour`, in their order.
    pub fn events_in_hour<'a>(&self, state: &'a CalendarState, hour: u32) -> (r: Vec<&'a Event>)
        ensures
            deref_events(r@) == state.events@.filter(
                |e: Event| e.start_time.date == self.selected_date && e.start_time.hour == hour,
            ),
    {
        let events = state.events_on_date(self.selected_date);
        let ghost q = |e: Event| e.start_time.hour == hour;
        let mut r: Vec<&'a Event> = Vec::new();
        let mut i: usize = 0;
        while i < events.len()
            invariant
                0 <= i <= events@.len(),
                q == (|e: Event| e.start_time.hour == hour),
                deref_events(r@) == deref_events(events@).take(i as int).filter(q),
            decreases events.len() - i,
        {
            let e = events[i];
            let ghost all = deref_events(events@);
            let ghost before = r@;
            proof {
                assert(all.take(i + 1) =~= all.take(i as int).push(all[i as int]));
                all.take(i as int).lemma_filter_push(all[i as int], q);
            }
            if e.start_time.hour == hour {
                r.push(e);
                assert(deref_events(r@) =~= deref_events(before).push(*e));
            }
            i = i + 1;
        }
        proof {
            let p = |e: Event| e.start_time.date == self.selected_date;
            assert(deref_events(events@).take(events@.len() as int) =~= deref_events(events@));
            lemma_filter_filter(state.events@, p, q);
            assert((|e: Event| p(e) && q(e)) =~= (|e: Event| e.start_time.date == self.selected_date && e.start_time.hour == hour));
        }
        r
    }
}

impl Default for DayView {
    fn default() -> (r: Self)
        ensures
            r.selected_date.is_valid(),
            r.selected_event_index is None,
    {
        Self::new()
    }
}


/// The month grid: six weeks of seven days from Sunday, with the days of `d`'s month placed after
/// as many empty cells as the weekday of its first day.
pub open spec fn month_grid(d: Date, first_weekday: int, r: Seq<Option<Date>>) -> bool {
    &&& r.len() == 42
    &&& forall|i: int| 0 <= i < 42 ==> #[trigger] r[i] == if first_weekday <= i < first_weekday + month_length(d.year as int, d.month as int) {
        Some(Date { year: d.year, month: d.month, day: (i - first_weekday + 1) as u32 })
    } else {
        None
    }
}

/// The English name of month `month` (1 to 12).
pub open spec fn month_full_name(month: int) -> Seq<char> {
    if month == 1 { "January"@ }
    else if month == 2 { "February"@ }
    else if month == 3 { "March"@ }
    else if month == 4 { "April"@ }
    else if month == 5 { "May"@ }
    else if month == 6 { "June"@ }
    else if month == 7 { "July"@ }
    else if month == 8 { "August"@ }
    else if month == 9 { "September"@ }
    else if month == 10 { "October"@ }
    else if month == 11 { "November"@ }
    else if month == 12 { "December"@ }
    else { "Unknown"@ }
}

/// The day `target` of month `(year, month)`, or the month's last day when it has fewer days.
pub open spec fn clamped_day(year: int, month: int, target: int) -> Date {
    Date {
        year: year as i32,
        month: month as u32,
        day: vstd::math::min(target, month_length(year, month)) as u32,
    }
}

/// The view of a month.
#[derive(Clone, Copy, Debug)]
pub struct MonthView {
    pub selected_date: Date,
    pub selected_event_index: Option<usize>,
}

impl MonthView {
    /// A view of today (as `today` reads it), with no event selected.
    pub fn new() -> (r: Self)
        ensures
            r.selected_date.is_valid(),
            r.selected_event_index is None,
    {
        MonthView { selected_date: today(), selected_event_index: None }
    }

    /// The cells of the month grid of `date`'s month.
    pub fn get_month_days(&self, date: Date) -> (r: Vec<Option<Date>>)
        requires
            date.is_valid(),
            date.month == 12 ==> date.year < MAX_YEAR,
        ensures
            month_grid(date, Date { year: date.year, month: date.month, day: 1 }.day_number() % 7, r@),
    {
        let year = date.year;
        let month = date.month;
        let first_day = Date::from_ymd_opt(year, month, 1).unwrap();
        let first_weekday = days_from_sunday(first_day) as usize;
        let days_in_month = self.days_in_month(year, month);
        let mut days: Vec<Option<Date>> = Vec::new();
        let mut k: usize = 0;
        while k < 42
            invariant
                k <= 42,
                days@.len() == k,
                forall|i: int| 0 <= i < k ==> #[trigger] days@[i] == None::<Date>,
            decreases 42 - k,
        {
            days.push(None);
            k = k + 1;
        }
        let mut day: usize = 1;
        while day <= days_in_month
            invariant
                1 <= day <= days_in_month + 1,
                days_in_month == month_length(year as int, month as int),
                first_weekday < 7,
                days@.len() == 42,
                valid_ymd(year as int, month as int, 1),
                forall|i: int| 0 <= i < 42 ==> #[trigger] days@[i] == if first_weekday <= i < first_weekday + day - 1 {
                    Some(Date { year, month, day: (i - first_weekday + 1) as u32 })
                } else {
                    None
                },
            decreases days_in_month + 1 - day,
        {
            let index = first_weekday + day - 1;
            days.set(index, Date::from_ymd_opt(year, month, day as u32));
            day = day + 1;
        }
        days
    }

    /// The number of days in month `month` of year `year`.
    pub fn days_in_month(&self, year: i32, month: u32) -> (r: usize)
        requires
            1 <= month <= 12,
            MIN_YEAR <= year <= MAX_YEAR,
            month == 12 ==> year < MAX_YEAR,
        ensures
            r == month_length(year as int, month as int),
    {
        let next_month = if month == 12 { 1 } else { month + 1 };
        let next_year = if month == 12 { year + 1 } else { year };
        let first_of_next = Date::from_ymd_opt(next_year, next_month, 1).unwrap();
        let ghost last_day = Date { year, month, day: month_length(year as int, month as int) as u32 };
        proof {
            lemma_month_end_then_next(year as int, month as int);
            lemma_valid_date_in_range(last_day);
        }
        let last = first_of_next.checked_add_days(-1).unwrap();
        proof {
            lemma_day_number_injective(last, last_day);
        }
        last.day as usize
    }

    /// The English name of a month number.
    pub fn month_name(&self, month: u32) -> (r: &'static str)
        ensures
            r@ == month_full_name(month as int),
    {
        match month {
            1 => "January",
            2 => "February",
            3 => "March",
            4 => "April",
            5 => "May",
            6 => "June",
            7 => "July",
            8 => "August",
            9 => "September",
            10 => "October",
            11 => "November",
            12 => "December",
            _ => "Unknown",
        }
    }

    pub fn select_date(&mut self, date: Date)
        ensures
            final(self).selected_date == date,
            final(self).selected_event_index == old(self).selected_event_index,
    {
        self.selected_date = date;
    }

    /// Moves the selected date by `days` days, unless that leaves the range of dates.
    pub fn move_selection(&mut self, days: i64)
        requires
            old(self).selected_date.is_valid(),
            -MAX_DAY_SHIFT <= days <= MAX_DAY_SHIFT,
        ensures
            shifted_or_same(old(self).selected_date, days as int, final(self).selected_date),
            final(self).selected_event_index == old(self).selected_event_index,
    {
        self.selected_date = shift_or_keep(self.selected_date, days);
    }

    /// Moves the selected date back to the Sunday of its week.
    pub fn move_to_week_start(&mut self)
        requires
            old(self).selected_date.is_valid(),
        ensures
            shifted_or_same(
                old(self).selected_date,
                -(old(self).selected_date.day_number() % 7),
                final(self).selected_date,
            ),
            final(self).selected_event_index == old(self).selected_event_index,
    {
        let weekday = days_from_sunday(self.selected_date);
        self.selected_date = shift_or_keep(self.selected_date, -(weekday as i64));
    }

    /// Moves the selected date on to the Saturday of its week.
    pub fn move_to_week_end(&mut self)
        requires
            old(self).selected_date.is_valid(),
        ensures
            shifted_or_same(
                old(self).selected_date,
                6 - old(self).selected_date.day_number() % 7,
                final(self).selected_date,
            ),
            final(self).selected_event_index == old(self).selected_event_index,
    {
        let weekday = days_from_sunday(self.selected_date);
        let days_to_saturday = 6 - weekday;
        self.selected_date = shift_or_keep(self.selected_date, days_to_saturday as i64);
    }

    /// Moves to the same day of the previous month, or its last day when it is shorter.
    pub fn move_to_prev_month(&mut self)
        requires
            old(self).selected_date.is_valid(),
            old(self).selected_date.month == 1 ==> old(self).selected_date.year > MIN_YEAR,
        ensures
            final(self).selected_date == (if old(self).selected_date.month == 1 {
                clamped_day(old(self).selected_date.year - 1, 12, old(self).selected_date.day as int)
            } else {
                clamped_day(old(self).selected_date.year as int, old(self).selected_date.month - 1, old(self).selected_date.day as int)
            }),
            final(self).selected_date.is_valid(),
            final(self).selected_event_index == old(self).selected_event_index,
    {
        let current_day = self.selected_date.day;
        let month = self.selected_date.month;
        let year = self.selected_date.year;
        let (prev_month, prev_year) = if month == 1 { (12, year - 1) } else { (month - 1, year) };
        let days_in_prev_month = self.days_in_month(prev_year, prev_month);
        let target_day = if (current_day as usize) < days_in_prev_month { current_day } else { days_in_prev_month as u32 };
        self.selected_date = match Date::from_ymd_opt(prev_year, prev_month, target_day) {
            Some(d) => d,
            None => self.selected_date,
        };
    }

    /// Moves to the same day of the next month, or its last day when it is shorter.
    pub fn move_to_next_month(&mut self)
        requires
            old(self).selected_date.is_valid(),
            old(self).selected_date.month == 12 ==> old(self).selected_date.year + 1 < MAX_YEAR,
            old(self).selected_date.month == 11 ==> old(self).selected_date.year < MAX_YEAR,
        ensures
            final(self).selected_date == (if old(self).selected_date.month == 12 {
                clamped_day(old(self).selected_date.year + 1, 1, old(self).selected_date.day as int)
            } else {
                clamped_day(old(self).selected_date.year as int, old(self).selected_date.month + 1, old(self).selected_date.day as int)
            }),
            final(self).selected_date.is_valid(),
            final(self).selected_event_index == old(self).selected_event_index,
    {
        let current_day = self.selected_date.day;
        let month = self.selected_date.month;
        let year = self.selected_date.year;
        let (next_month, next_year) = if month == 12 { (1, year + 1) } else { (month + 1, year) };
        let days_in_next_month = self.days_in_month(next_year, next_month);
        let target_day = if (current_day as usize) < days_in_next_month { current_day } else { days_in_next_month as u32 };
        self.selected_date = match Date::from_ymd_opt(next_year, next_month, target_day) {
            Some(d) => d,
            None => self.selected_date,
        };
    }

    pub fn jump_to_today(&mut self)
        ensures
            final(self).selected_date.is_valid(),
            final(self).selected_event_index == old(self).selected_event_index,
    {
        self.selected_date = today();
    }

    pub fn select_next_event(&mut self, event_count: usize)
        ensures
            final(self).selected_event_index == view_next_selection(old(self).selected_event_index, event_count as nat),
            final(self).selected_date == old(self).selected_date,
    {
        self.selected_event_index = next_in_view(self.selected_event_index, event_count);
    }

    pub fn select_prev_event(&mut self, event_count: usize)
        ensures
            final(self).selected_event_index == view_previous_selection(old(self).selected_event_index, event_count as nat),
            final(self).selected_date == old(self).selected_date,
    {
        self.selected_event_index = previous_in_view(self.selected_event_index, event_count);
    }

    /// The identifier of the selected event among those on the selected date.
    pub fn get_selected_event_id(&self, state: &CalendarState) -> (r: Option<String>)
        ensures
            r == match self.selected_event_index {
                Some(i) => {
                    let on_day = state.events@.filter(|e: Event| e.start_time.date == self.selected_date);
                    if i < on_day.len() { Some(on_day[i as int].id) } else { None }
                },
                None => None,
            },
    {
        let events = state.events_on_date(self.selected_date);
        match self.selected_event_index {
            Some(idx) => {
                if idx < events.len() {
                    assert(deref_events(events@)[idx as int] == *events@[idx as int]);
                    Some(events[idx].id.clone())
                } else {
                    None
                }
            },
            None => None,
        }
    }

    pub fn clear_event_selection(&mut self)
        ensures
            final(self).selected_event_index is None,
            final(self).selected_date == old(self).selected_date,
    {
        self.selected_event_index = None;
    }
}

impl Default for MonthView {
    fn default() -> (r: Self)
        ensures
            r.selected_date.is_valid(),
            r.selected_event_index is None,
    {
        Self::new()
    }
}

/// The day number of the Sunday that starts the week holding `d`.
pub open spec fn week_start_number(d: Date) -> int {
    d.day_number() - d.day_number() % 7
}

/// `r` holds the seven consecutive days whose first has day number `first`.
pub open spec fn week_days_from(first: int, r: Seq<Date>) -> bool {
    &&& r.len() == 7
    &&& forall|i: int| 0 <= i < 7 ==> (#[trigger] r[i]).is_valid() && r[i].day_number() == first + i
}

/// The whole week that holds `d`, from Sunday to Saturday, lies in the range of dates.
pub open spec fn week_in_range(d: Date) -> bool {
    &&& d.is_valid()
    &&& day_number_in_range(week_start_number(d))
    &&& day_number_in_range(week_start_number(d) + 6)
}

/// The hours that block `i` of a day covers in the week view, from (included) and to (excluded):
/// morning, midday, afternoon and evening.
pub open spec fn block_hours(i: int) -> (int, int) {
    if i == 0 {
        (6, 12)
    } else if i == 1 {
        (12, 15)
    } else if i == 2 {
        (15, 18)
    } else {
        (18, 24)
    }
}

/// The events that start on `date` within the hours of block `i`.
pub open spec fn starts_in_block(date: Date, i: int) -> spec_fn(Event) -> bool {
    |e: Event| e.start_time.date == date && block_hours(i).0 <= e.start_time.hour && e.start_time.hour < block_hours(i).1
}

proof fn lemma_filter_filter(s: Seq<Event>, p: spec_fn(Event) -> bool, q: spec_fn(Event) -> bool)
    ensures
        s.filter(p).filter(q) == s.filter(|e: Event| p(e) && q(e)),
    decreases s.len(),
{
    let pq = |e: Event| p(e) && q(e);
    if s.len() > 0 {
        let init = s.drop_last();
        let x = s.last();
        lemma_filter_filter(init, p, q);
        assert(s =~= init.push(x));
        init.lemma_filter_push(x, p);
        init.lemma_filter_push(x, pq);
        init.filter(p).lemma_filter_push(x, q);
    } else {
        reveal(Seq::filter);
        assert(s.filter(p) =~= s);
        assert(s.filter(pq) =~= s);
    }
}

/// The view of one week.
#[derive(Clone, Copy, Debug)]
pub struct WeekView {
    pub selected_date: Date,
    pub selected_event_index: Option<usize>,
}

impl WeekView {
    /// A view of today's week (as `today` reads it), with no event selected.
    pub fn new() -> (r: Self)
        ensures
            r.selected_date.is_valid(),
            r.selected_event_index is None,
    {
        WeekView { selected_date: today(), selected_event_index: None }
    }

    /// The seven days, Sunday to Saturday, of the week that holds `date`.
    pub fn get_week_days(&self, date: Date) -> (r: Vec<Date>)
        requires
            week_in_range(date),
        ensures
            week_days_from(week_start_number(date), r@),
    {
        let weekday = days_from_sunday(date);
        let sunday = date.checked_add_days(-(weekday as i64)).unwrap();
        let mut days: Vec<Date> = Vec::new();
        let mut i: i64 = 0;
        while i < 7
            invariant
                0 <= i <= 7,
                days@.len() == i,
                sunday.is_valid(),
                sunday.day_number() == week_start_number(date),
                week_in_range(date),
                forall|k: int| 0 <= k < i ==> (#[trigger] days@[k]).is_valid() && days@[k].day_number() == week_start_number(date) + k,
            decreases 7 - i,
        {
            let d = sunday.checked_add_days(i).unwrap();
            days.push(d);
            i = i + 1;
        }
        days
    }

    /// Whether the whole week that holds `date` lies in the range of dates, as showing its days
    /// needs.
    pub fn week_fits(&self, date: Date) -> (r: bool)
        ensures
            r == week_in_range(date),
    {
        if Date::from_ymd_opt(date.year, date.month, date.day).is_none() {
            return false;
        }
        let weekday = days_from_sunday(date);
        match date.checked_add_days(-(weekday as i64)) {
            Some(sunday) => sunday.checked_add_days(6).is_some(),
            None => false,
        }
    }

    /// The selected week written as its first and last day, such as `Mar 03 - Mar 09, 2024`.
    pub fn week_range_string(&self) -> (r: String)
        requires
            week_in_range(self.selected_date),
        ensures
            exists|first: Date, last: Date| {
                &&& first.is_valid() && first.day_number() == week_start_number(self.selected_date)
                &&& last.is_valid() && last.day_number() == week_start_number(self.selected_date) + 6
                &&& r@ == month_day_text(first) + " - "@ + month_day_year_text(last)
            },
    {
        let week_days = self.get_week_days(self.selected_date);
        let start = week_days[0];
        let end = week_days[6];
        let mut r = format_month_day(start);
        string_push_str(&mut r, " - ");
        let tail = format_month_day_year(end);
        string_push_str(&mut r, tail.as_str());
        r
    }

    /// The events that start on `date` within the hours of time block `block_idx`, in their order.
    pub fn events_in_time_block<'a>(&self, state: &'a CalendarState, date: Date, block_idx: usize) -> (r: Vec<&'a Event>)
        requires
            block_idx < 4,
        ensures
            deref_events(r@) == state.events@.filter(starts_in_block(date, block_idx as int)),
    {
        let events = state.events_on_date(date);
        let (start_hour, end_hour): (u32, u32) = if block_idx == 0 {
            (6, 12)
        } else if block_idx == 1 {
            (12, 15)
        } else if block_idx == 2 {
            (15, 18)
        } else {
            (18, 24)
        };
        let ghost q = |e: Event| start_hour <= e.start_time.hour && e.start_time.hour < end_hour;
        let mut r: Vec<&'a Event> = Vec::new();
        let mut i: usize = 0;
        while i < events.len()
            invariant
                0 <= i <= events@.len(),
                q == (|e: Event| start_hour <= e.start_time.hour && e.start_time.hour < end_hour),
                deref_events(r@) == deref_events(events@).take(i as int).filter(q),
            decreases events.len() - i,
        {
            let e = events[i];
            let ghost all = deref_events(events@);
            let ghost before = r@;
            proof {
                assert(all.take(i + 1) =~= all.take(i as int).push(all[i as int]));
                all.take(i as int).lemma_filter_push(all[i as int], q);
            }
            let hour = e.start_time.hour;
            if hour >= start_hour && hour < end_hour {
                r.push(e);
                assert(deref_events(r@) =~= deref_events(before).push(*e));
            }
            i = i + 1;
        }
        proof {
            let p = |e: Event| e.start_time.date == date;
            assert(deref_events(events@).take(events@.len() as int) =~= deref_events(events@));
            lemma_filter_filter(state.events@, p, q);
            assert((|e: Event| p(e) && q(e)) =~= starts_in_block(date, block_idx as int));
        }
        r
    }

    pub fn select_date(&mut self, date: Date)
        ensures
            final(self).selected_date == date,
            final(self).selected_event_index == old(self).selected_event_index,
    {
        self.selected_date = date;
    }

    /// Moves the selected date by `days` days, unless that leaves the range of dates.
    pub fn move_selection(&mut self, days: i64)
        requires
            old(self).selected_date.is_valid(),
            -MAX_DAY_SHIFT <= days <= MAX_DAY_SHIFT,
        ensures
            shifted_or_same(old(self).selected_date, days as int, final(self).selected_date),
            final(self).selected_event_index == old(self).selected_event_index,
    {
        self.selected_date = shift_or_keep(self.selected_date, days);
    }

    /// Moves the selected date a week on, unless that leaves the range of dates.
    pub fn move_to_next_week(&mut self)
        requires
            old(self).selected_date.is_valid(),
        ensures
            shifted_or_same(old(self).selected_date, 7, final(self).selected_date),
            final(self).selected_event_index == old(self).selected_event_index,
    {
        self.selected_date = shift_or_keep(self.selected_date, 7);
    }

    /// Moves the selected date a week back, unless that leaves the range of dates.
    pub fn move_to_prev_week(&mut self)
        requires
            old(self).selected_date.is_valid(),
        ensures
            shifted_or_same(old(self).selected_date, -7, final(self).selected_date),
            final(self).selected_event_index == old(self).selected_event_index,
    {
        self.selected_date = shift_or_keep(self.selected_date, -7);
    }

    pub fn jump_to_today(&mut self)
        ensures
            final(self).selected_date.is_valid(),
            final(self).selected_event_index == old(self).selected_event_index,
    {
        self.selected_date = today();
    }

    pub fn select_next_event(&mut self, event_count: usize)
        ensures
            final(self).selected_event_index == view_next_selection(old(self).selected_event_index, event_count as nat),
            final(self).selected_date == old(self).selected_date,
    {
        self.selected_event_index = next_in_view(self.selected_event_index, event_count);
    }

    pub fn select_prev_event(&mut self, event_count: usize)
        ensures
            final(self).selected_event_index == view_previous_selection(old(self).selected_event_index, event_count as nat),
            final(self).selected_date == old(self).selected_date,
    {
        self.selected_event_index = previous_in_view(self.selected_event_index, event_count);
    }
}

impl Default for WeekView {
    fn default() -> (r: Self)
        ensures
            r.selected_date.is_valid(),
            r.selected_event_index is None,
    {
        Self::new()
    }
}

/// The first day of month `idx + 1` of `d`'s year (`idx` taken as a `u32`), or `d` itself when
/// there is no such month.
pub open spec fn first_of_month_or_same(d: Date, idx: usize) -> Date {
    let m = (idx as u32) + 1;
    if valid_ymd(d.year as int, m, 1) {
        Date { year: d.year, month: m as u32, day: 1 }
    } else {
        d
    }
}

/// The month index that a step of `months` moves to from `idx`: one on when `months` is
/// positive, otherwise one back (not below 0), and no move at all when that leaves 0 to 11.
pub open spec fn stepped_month_index(idx: usize, months: i64) -> usize {
    let next: int = if months > 0 { idx + 1 } else if idx == 0 { 0 } else { idx - 1 };
    if next < 12 { next as usize } else { idx }
}

/// The view of a year, by month.
#[derive(Clone, Copy, Debug)]
pub struct YearView {
    pub selected_date: Date,
    pub selected_month_index: usize,
}

impl YearView {
    /// A view of today's year (as `today` reads it) with January selected.
    pub fn new() -> (r: Self)
        ensures
            r.selected_date.is_valid(),
            r.selected_month_index == 0,
    {
        YearView { selected_date: today(), selected_month_index: 0 }
    }

    /// The short name of the month at index `month_idx` (0 for January).
    pub fn month_name(&self, month_idx: usize) -> (r: &'static str)
        ensures
            r@ == short_month_name(month_idx + 1),
    {
        match month_idx {
            0 => "Jan",
            1 => "Feb",
            2 => "Mar",
            3 => "Apr",
            4 => "May",
            5 => "Jun",
            6 => "Jul",
            7 => "Aug",
            8 => "Sep",
            9 => "Oct",
            10 => "Nov",
            11 => "Dec",
            _ => "???",
        }
    }

    /// Selects the month at index `month_idx` and moves the date to its first day.
    pub fn select_month(&mut self, month_idx: usize)
        requires
            (month_idx as u32) < u32::MAX,
        ensures
            final(self).selected_month_index == month_idx,
            final(self).selected_date == first_of_month_or_same(old(self).selected_date, month_idx),
    {
        self.selected_month_index = month_idx;
        let month: u32 = month_idx as u32 + 1;
        self.selected_date = match Date::from_ymd_opt(self.selected_date.year, month, 1) {
            Some(d) => d,
            None => self.selected_date,
        };
    }

    /// Selects the next month when `months` is positive, otherwise the previous one, staying
    /// within the year.
    pub fn move_selection(&mut self, months: i64)
        requires
            months > 0 ==> old(self).selected_month_index < usize::MAX,
            (stepped_month_index(old(self).selected_month_index, months) as u32) < u32::MAX,
        ensures
            final(self).selected_month_index == stepped_month_index(old(self).selected_month_index, months),
            final(self).selected_date == first_of_month_or_same(
                old(self).selected_date,
                stepped_month_index(old(self).selected_month_index, months),
            ),
    {
        let new_idx = if months > 0 {
            self.selected_month_index + 1
        } else if self.selected_month_index == 0 {
            0
        } else {
            self.selected_month_index - 1
        };
        if new_idx < 12 {
            self.selected_month_index = new_idx;
        }
        let idx = self.selected_month_index;
        self.select_month(idx);
    }

    /// Moves to the first of January of the next year.
    pub fn move_to_next_year(&mut self)
        requires
            MIN_YEAR <= old(self).selected_date.year + 1 <= MAX_YEAR,
        ensures
            final(self).selected_date == (Date { year: (old(self).selected_date.year + 1) as i32, month: 1, day: 1 }),
            final(self).selected_month_index == 0,
    {
        let new_year = self.selected_date.year + 1;
        self.selected_date = Date::from_ymd_opt(new_year, 1, 1).unwrap();
        self.selected_month_index = 0;
    }

    /// Moves to the first of January of the previous year.
    pub fn move_to_prev_year(&mut self)
        requires
            MIN_YEAR <= old(self).selected_date.year - 1 <= MAX_YEAR,
        ensures
            final(self).selected_date == (Date { year: (old(self).selected_date.year - 1) as i32, month: 1, day: 1 }),
            final(self).selected_month_index == 0,
    {
        let new_year = self.selected_date.year - 1;
        self.selected_date = Date::from_ymd_opt(new_year, 1, 1).unwrap();
        self.selected_month_index = 0;
    }

    /// Moves to the first day of the current month, and selects that month.
    pub fn jump_to_today(&mut self)
        ensures
            final(self).selected_date.is_valid(),
            final(self).selected_date.day == 1,
            final(self).selected_month_index == final(self).selected_date.month - 1,
    {
        let now = today();
        self.selected_date = Date::from_ymd_opt(now.year, now.month, 1).unwrap();
        self.selected_month_index = (now.month - 1) as usize;
    }
}

impl YearView {
    /// How many events start from the first day of the month at index `month_idx` of the
    /// selected year to the first day of the month after it, both included.
    pub fn month_event_count(&self, state: &CalendarState, month_idx: usize) -> (r: usize)
        requires
            month_idx < 12,
            MIN_YEAR <= self.selected_date.year <= MAX_YEAR,
            month_idx == 11 ==> self.selected_date.year < MAX_YEAR,
        ensures
            r == state.events@.filter(|e: Event| {
                let first = Date { year: self.selected_date.year, month: (month_idx + 1) as u32, day: 1 };
                !e.start_time.date.before(first) && !first_of_next_month(first).before(e.start_time.date)
            }).len(),
    {
        let year = self.selected_date.year;
        let month = month_idx as u32 + 1;
        let month_start = Date::from_ymd_opt(year, month, 1).unwrap();
        let month_end = if month_idx == 11 {
            Date::from_ymd_opt(year + 1, 1, 1).unwrap()
        } else {
            Date::from_ymd_opt(year, month + 1, 1).unwrap()
        };
        let events = state.events_in_range(month_start, month_end);
        proof {
            let first = Date { year: self.selected_date.year, month: (month_idx + 1) as u32, day: 1 };
            assert(month_start == first);
            assert(month_end == first_of_next_month(first));
            assert((|e: Event| !e.start_time.date.before(month_start) && !month_end.before(e.start_time.date))
                =~= (|e: Event| {
                    let first = Date { year: self.selected_date.year, month: (month_idx + 1) as u32, day: 1 };
                    !e.start_time.date.before(first) && !first_of_next_month(first).before(e.start_time.date)
                }));
        }
        events.len()
    }
}

impl Default for YearView {
    fn default() -> (r: Self)
        ensures
            r.selected_date.is_valid(),
            r.selected_month_index == 0,
    {
        Self::new()
    }
}

/// Moving a selected date by `days` and then by `-days` gives the date back, where the first
/// move stays in the range of dates (as for the next and previous day or week).
pub proof fn law_shift_then_back(d: Date, days: int, a: Date, b: Date)
    requires
        d.is_valid(),
        day_number_in_range(d.day_number() + days),
        shifted_or_same(d, days, a),
        shifted_or_same(a, -days, b),
    ensures
        b == d,
{
    lemma_valid_date_in_range(d);
    lemma_day_number_injective(b, d);
}

/// In a view, selecting the previous event after the next one gives back an index that was in
/// range and not the last.
pub proof fn law_view_selection_steps_undo(i: usize, count: nat)
    requires
        i + 1 < count,
        count <= usize::MAX,
    ensures
        view_previous_selection(view_next_selection(Some(i), count), count) == Some(i),
        view_next_selection(view_previous_selection(Some((i + 1) as usize), count), count) == Some((i + 1) as usize),
{
}

/// A view's event selection, when there is one, is an index into the events it was made for.
pub proof fn law_view_selection_in_bounds(current: Option<usize>, count: nat)
    requires
        count > 0,
        current matches Some(i) ==> i < count,
    ensures
        view_next_selection(current, count) matches Some(j) && j < count,
        view_previous_selection(current, count) matches Some(j) && j < count,
{
}

/// Moving the year view's month selection keeps it among the twelve months.
pub proof fn law_month_index_stays_in_year(idx: usize, months: i64)
    requires
        idx < 12,
    ensures
        stepped_month_index(idx, months) < 12,
{
}


/// The four time blocks of a week-view day split 06:00 to 24:00 without gap or overlap: an event
/// on `date` that starts at an hour from 6 to 23 is in exactly one block, and the blocks come in
/// order of the day (every hour of an earlier block comes before every hour of a later one). The
/// morning block starts at 06:00, and the afternoon block (index 2) takes hours 15, 16 and 17.
/// No event that starts on another date, or before 06:00, is in any block.
pub proof fn law_time_blocks_partition_the_day(date: Date, e: Event, f: Event)
    ensures
        e.start_time.date == date && 6 <= e.start_time.hour < 24 ==> exists|i: int| 0 <= i < 4 && #[trigger] starts_in_block(date, i)(e),
        forall|i: int, j: int| 0 <= i < j < 4 && #[trigger] starts_in_block(date, i)(e) ==> !#[trigger] starts_in_block(date, j)(e),
        forall|i: int, j: int| 0 <= i < j < 4 && #[trigger] starts_in_block(date, i)(e) && #[trigger] starts_in_block(date, j)(f) ==> e.start_time.hour < f.start_time.hour,
        e.start_time.date != date || e.start_time.hour < 6 ==> forall|i: int| 0 <= i < 4 ==> !#[trigger] starts_in_block(date, i)(e),
        e.start_time.date == date && e.start_time.hour == 6 ==> starts_in_block(date, 0)(e),
        e.start_time.date == date && 15 <= e.start_time.hour < 18 ==> starts_in_block(date, 2)(e),
{
    if e.start_time.date == date && 6 <= e.start_time.hour < 24 {
        let h = e.start_time.hour;
        let i: int = if h < 12 { 0 } else if h < 15 { 1 } else if h < 18 { 2 } else { 3 };
        assert(starts_in_block(date, i)(e));
    }
}


/// The month grid of `d` holds every day of `d`'s month exactly once, each in the column of its
/// weekday (column 0 for Sunday), the first day in the first week; every other cell is empty, so
/// as many cells are filled as the month has days.
pub proof fn law_month_grid_holds_each_day_once(d: Date, r: Seq<Option<Date>>)
    requires
        d.is_valid(),
        month_grid(d, Date { year: d.year, month: d.month, day: 1 }.day_number() % 7, r),
    ensures
        forall|x: Date| #![trigger x.is_valid()]
            x.is_valid() && x.year == d.year && x.month == d.month ==> exists|i: int| 0 <= i < 42 && r[i] == Some(x),
        forall|i: int| 0 <= i < 42 && (#[trigger] r[i]) is Some ==> {
            let x = r[i]->0;
            &&& x.is_valid()
            &&& x.year == d.year
            &&& x.month == d.month
            &&& i % 7 == x.day_number() % 7
            &&& (x.day == 1 ==> i < 7)
        },
        forall|i: int, j: int| 0 <= i < 42 && 0 <= j < 42 && (#[trigger] r[i]) is Some && r[i] == #[trigger] r[j] ==> i == j,
{
    let first = Date { year: d.year, month: d.month, day: 1 }.day_number();
    let w = first % 7;
    assert forall|x: Date| #![trigger x.is_valid()]
        x.is_valid() && x.year == d.year && x.month == d.month implies exists|i: int| 0 <= i < 42 && r[i] == Some(x) by {
        let i = w + x.day - 1;
        assert(0 <= i < 42);
        assert(r[i] == Some(x));
    }
    assert forall|i: int| 0 <= i < 42 && (#[trigger] r[i]) is Some implies {
        let x = r[i]->0;
        &&& x.is_valid()
        &&& x.year == d.year
        &&& x.month == d.month
        &&& i % 7 == x.day_number() % 7
        &&& (x.day == 1 ==> i < 7)
    } by {
        let x = r[i]->0;
        let k = i - w;
        assert(x.day_number() == first + k);
        assert((w + k) % 7 == (first + k) % 7) by {
            vstd::arithmetic::div_mod::lemma_mod_add_multiples_vanish(0, 7);
            vstd::arithmetic::div_mod::lemma_fundamental_div_mod(first, 7);
            vstd::arithmetic::div_mod::lemma_mod_multiples_vanish(first / 7, w + k, 7);
        }
    }
}

} // verus!
