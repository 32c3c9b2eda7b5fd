//! An in-memory store of events, keyed by their identifiers.
use crate::datetime::DateTime;
use crate::events::{deref_events, has_id, position_of_id, Event};
use crate::sorting::{insert_by_start, sort_by_start, sort_in_place, StartOrdered};
use vstd::prelude::*;

verus! {

/// Why a store operation was refused.
#[derive(Clone, Debug, PartialEq, Eq)]
pub enum EventStoreError {
    NotFound(String),
    AlreadyExists(String),
    InvalidDateRange,
}

impl EventStoreError {
    /// The text that describes the error.
    pub fn message(&self) -> (r: String)
        ensures
            r@ == match self {
                EventStoreError::NotFound(id) => "Event not found: "@ + id@,
                EventStoreError::AlreadyExists(id) => "Event already exists: "@ + id@,
                EventStoreError::InvalidDateRange => "Invalid date range: start must be before end"@,
            },
    {
        match self {
            EventStoreError::NotFound(id) => {
                let mut s = String::from_str("Event not found: ");
                s.append(id.as_str());
                s
            },
            EventStoreError::AlreadyExists(id) => {
                let mut s = String::from_str("Event already exists: ");
                s.append(id.as_str());
                s
            },
            EventStoreError::InvalidDateRange => String::from_str(
                "Invalid date range: start must be before end",
            ),
        }
    }
}


/// No two events of `s` share an identifier.
pub open spec fn ids_unique(s: Seq<Event>) -> bool {
    forall|i: int, j: int| 0 <= i < s.len() && 0 <= j < s.len() && i != j ==> s[i].id@ != s[j].id@
}

/// The position in `s` of the event with identifier `k`.
pub open spec fn index_of_id(s: Seq<Event>, k: Seq<char>) -> int {
    choose|i: int| 0 <= i < s.len() && s[i].id@ == k
}

/// The events of `s` keyed by identifier.
pub open spec fn events_by_id(s: Seq<Event>) -> Map<Seq<char>, Event> {
    Map::new(|k: Seq<char>| has_id(s, k), |k: Seq<char>| s[index_of_id(s, k)])
}

/// With unique identifiers, the event at `i` is the one that its identifier names.
pub proof fn lemma_index_of_id(s: Seq<Event>, i: int)
    requires
        ids_unique(s),
        0 <= i < s.len(),
    ensures
        has_id(s, s[i].id@),
        index_of_id(s, s[i].id@) == i,
        events_by_id(s).contains_key(s[i].id@),
        events_by_id(s)[s[i].id@] == s[i],
{
    let k = s[i].id@;
    assert(0 <= i < s.len() && s[i].id@ == k);
    let j = index_of_id(s, k);
    assert(0 <= j < s.len() && s[j].id@ == k);
}

/// Events that start from `range.0` to `range.1` (both included, when a range is given) and
/// belong to the category `category` (when one is given).
pub open spec fn store_match(e: Event, range: Option<(DateTime, DateTime)>, category: Option<Seq<char>>) -> bool {
    &&& match range {
        Some((start, end)) => start.sort_key() <= e.start_time.sort_key() && e.start_time.sort_key() <= end.sort_key(),
        None => true,
    }
    &&& match category {
        Some(name) => e.category matches Some(c) && c.name@ == name,
        None => true,
    }
}

/// Adding an event under a new identifier adds it to the map.
pub proof fn lemma_by_id_push(s: Seq<Event>, e: Event)
    requires
        ids_unique(s),
        !has_id(s, e.id@),
    ensures
        ids_unique(s.push(e)),
        events_by_id(s.push(e)) =~= events_by_id(s).insert(e.id@, e),
{
    let t = s.push(e);
    assert forall|i: int, j: int| 0 <= i < t.len() && 0 <= j < t.len() && i != j implies t[i].id@ != t[j].id@ by {
        if i == s.len() {
            assert(s[j].id@ != e.id@);
        } else if j == s.len() {
            assert(s[i].id@ != e.id@);
        }
    }
    lemma_index_of_id(t, s.len() as int);
    assert forall|k: Seq<char>| #[trigger] has_id(t, k) <==> has_id(s, k) || k == e.id@ by {
        if has_id(t, k) {
            let i = choose|i: int| 0 <= i < t.len() && t[i].id@ == k;
            if i < s.len() {
                assert(s[i].id@ == k);
            }
        }
        if has_id(s, k) {
            let i = choose|i: int| 0 <= i < s.len() && s[i].id@ == k;
            assert(t[i].id@ == k);
        }
    }
    assert forall|k: Seq<char>| has_id(s, k) implies events_by_id(t)[k] == events_by_id(s)[k] by {
        let i = choose|i: int| 0 <= i < s.len() && s[i].id@ == k;
        lemma_index_of_id(s, i);
        lemma_index_of_id(t, i);
    }
}

/// Replacing the event at `i` by one with the same identifier replaces it in the map.
pub proof fn lemma_by_id_update(s: Seq<Event>, i: int, e: Event)
    requires
        ids_unique(s),
        0 <= i < s.len(),
        s[i].id@ == e.id@,
    ensures
        ids_unique(s.update(i, e)),
        events_by_id(s.update(i, e)) =~= events_by_id(s).insert(e.id@, e),
{
    let t = s.update(i, e);
    assert forall|a: int, b: int| 0 <= a < t.len() && 0 <= b < t.len() && a != b implies t[a].id@ != t[b].id@ by {
        assert(t[a].id@ == s[a].id@);
        assert(t[b].id@ == s[b].id@);
    }
    lemma_index_of_id(t, i);
    assert forall|k: Seq<char>| #[trigger] has_id(t, k) <==> has_id(s, k) by {
        if has_id(t, k) {
            let j = choose|j: int| 0 <= j < t.len() && t[j].id@ == k;
            assert(s[j].id@ == k);
        }
        if has_id(s, k) {
            let j = choose|j: int| 0 <= j < s.len() && s[j].id@ == k;
            assert(t[j].id@ == k);
        }
    }
    assert forall|k: Seq<char>| has_id(s, k) && k != e.id@ implies events_by_id(t)[k] == events_by_id(s)[k] by {
        let j = choose|j: int| 0 <= j < s.len() && s[j].id@ == k;
        lemma_index_of_id(s, j);
        assert(t[j] == s[j]);
        lemma_index_of_id(t, j);
    }
}

/// Removing the event at `i` removes its identifier from the map.
pub proof fn lemma_by_id_remove(s: Seq<Event>, i: int)
    requires
        ids_unique(s),
        0 <= i < s.len(),
    ensures
        ids_unique(s.remove(i)),
        events_by_id(s.remove(i)) =~= events_by_id(s).remove(s[i].id@),
{
    let t = s.remove(i);
    let gone = s[i].id@;
    assert forall|a: int| 0 <= a < t.len() implies #[trigger] t[a] == s[if a < i { a } else { a + 1 }] by {}
    assert forall|a: int, b: int| 0 <= a < t.len() && 0 <= b < t.len() && a != b implies t[a].id@ != t[b].id@ by {
        assert(t[a] == s[if a < i { a } else { a + 1 }]);
        assert(t[b] == s[if b < i { b } else { b + 1 }]);
    }
    assert forall|k: Seq<char>| #[trigger] has_id(t, k) <==> has_id(s, k) && k != gone by {
        if has_id(t, k) {
            let j = choose|j: int| 0 <= j < t.len() && t[j].id@ == k;
            let js = if j < i { j } else { j + 1 };
            assert(t[j] == s[js]);
            assert(s[js].id@ == k);
        }
        if has_id(s, k) && k != gone {
            let j = choose|j: int| 0 <= j < s.len() && s[j].id@ == k;
            let jt = if j < i { j } else { j - 1 };
            assert(t[jt] == s[j]);
        }
    }
    assert forall|k: Seq<char>| has_id(t, k) implies events_by_id(t)[k] == events_by_id(s)[k] by {
        let j = choose|j: int| 0 <= j < t.len() && t[j].id@ == k;
        let js = if j < i { j } else { j + 1 };
        assert(t[j] == s[js]);
        lemma_index_of_id(t, j);
        lemma_index_of_id(s, js);
    }
}

/// The test that `store_match` makes, as a predicate on events.
pub open spec fn matches(range: Option<(DateTime, DateTime)>, category: Option<Seq<char>>) -> spec_fn(Event) -> bool {
    |e: Event| store_match(e, range, category)
}

/// The name that a category argument asks for.
pub open spec fn category_name(category: Option<&str>) -> Option<Seq<char>> {
    match category {
        Some(c) => Some(c@),
        None => None,
    }
}

/// `deref_events` commutes with inserting by start.
proof fn lemma_deref_insert<'a>(t: Seq<&'a Event>, x: &'a Event)
    ensures
        deref_events(insert_by_start(t, x)) == insert_by_start(deref_events(t), *x),
    decreases t.len(),
{
    if t.len() == 0 {
        assert(deref_events(seq![x]) =~= seq![*x]);
    } else if t.last().start_key() <= x.start_key() {
        assert(deref_events(t.push(x)) =~= deref_events(t).push(*x));
    } else {
        lemma_deref_insert(t.drop_last(), x);
        assert(deref_events(t.drop_last()) =~= deref_events(t).drop_last());
        assert(deref_events(insert_by_start(t.drop_last(), x).push(t.last()))
            =~= deref_events(insert_by_start(t.drop_last(), x)).push(*t.last()));
    }
}

/// `deref_events` commutes with sorting by start.
proof fn lemma_deref_sort<'a>(s: Seq<&'a Event>)
    ensures
        deref_events(sort_by_start(s)) == sort_by_start(deref_events(s)),
    decreases s.len(),
{
    if s.len() > 0 {
        lemma_deref_sort(s.drop_last());
        lemma_deref_insert(sort_by_start(s.drop_last()), s.last());
        assert(deref_events(s.drop_last()) =~= deref_events(s).drop_last());
    }
}

/// Events held in memory, each under its own identifier.
#[derive(Debug)]
pub struct InMemoryEventStore {
    events: Vec<Event>,
}

impl View for InMemoryEventStore {
    type V = Map<Seq<char>, Event>;

    closed spec fn view(&self) -> Map<Seq<char>, Event> {
        events_by_id(self.events@)
    }
}

impl InMemoryEventStore {
    #[verifier::type_invariant]
    spec fn inv(self) -> bool {
        ids_unique(self.events@)
    }

    /// The stored events, in the order in which they were created.
    pub closed spec fn entries(self) -> Seq<Event> {
        self.events@
    }

    /// An empty store.
    pub fn new() -> (r: Self)
        ensures
            r@ == Map::<Seq<char>, Event>::empty(),
            r.entries().len() == 0,
    {
        let events: Vec<Event> = Vec::new();
        assert(ids_unique(events@));
        let r = InMemoryEventStore { events };
        assert(r@ =~= Map::<Seq<char>, Event>::empty());
        r
    }

    /// The events that match, in order of creation.
    fn matching(&self, range: Option<(DateTime, DateTime)>, category: Option<&str>) -> (r: Vec<&Event>)
        ensures
            deref_events(r@) == self.entries().filter(matches(range, category_name(category))),
    {
        let ghost cat = category_name(category);
        let ghost pred = matches(range, cat);
        let mut r: Vec<&Event> = Vec::new();
        let mut i: usize = 0;
        while i < self.events.len()
            invariant
                0 <= i <= self.events@.len(),
                pred == matches(range, cat),
                cat == category_name(category),
                deref_events(r@) == self.events@.take(i as int).filter(pred),
            decreases self.events.len() - i,
        {
            let e = &self.events[i];
            proof {
                assert(self.events@.take(i + 1) =~= self.events@.take(i as int).push(self.events@[i as int]));
                self.events@.take(i as int).lemma_filter_push(self.events@[i as int], pred);
            }
            let in_range = match range {
                Some((start, end)) => start.no_later_than(&e.start_time) && e.start_time.no_later_than(&end),
                None => true,
            };
            let in_category = match category {
                Some(name) => match &e.category {
                    Some(c) => crate::text::str_equal(c.name.as_str(), name),
                    None => false,
                },
                None => true,
            };
            let ghost before = r@;
            if in_range && in_category {
                r.push(e);
                assert(deref_events(r@) =~= deref_events(before).push(*e));
            }
            i = i + 1;
        }
        assert(self.events@.take(i as int) =~= self.events@);
        r
    }

    /// The matching events in stable order of start.
    fn matching_sorted(&self, range: Option<(DateTime, DateTime)>, category: Option<&str>) -> (r: Vec<&Event>)
        ensures
            deref_events(r@) == sort_by_start(self.entries().filter(matches(range, category_name(category)))),
    {
        let mut v = self.matching(range, category);
        let ghost before = v@;
        sort_in_place(&mut v);
        proof {
            lemma_deref_sort(before);
        }
        v
    }
}

/// Storage of events: create, read, update, delete and queries.
pub trait EventStore {
    /// Stores a new event and returns its identifier.
    fn create(&mut self, event: Event) -> Result<String, EventStoreError>;

    /// The event with the given identifier.
    fn read(&self, id: &str) -> Result<&Event, EventStoreError>;

    /// Replaces the stored event that has the same identifier.
    fn update(&mut self, event: Event) -> Result<(), EventStoreError>;

    /// Removes the event with the given identifier and returns it.
    fn delete(&mut self, id: &str) -> Result<Event, EventStoreError>;

    /// All events, ordered by start.
    fn list(&self) -> Vec<&Event>;

    /// The events that start within `start..=end`, ordered by start.
    fn query_by_date_range(&self, start: DateTime, end: DateTime) -> Result<Vec<&Event>, EventStoreError>;

    /// The events of a category, ordered by start.
    fn query_by_category(&self, category_name: &str) -> Vec<&Event>;

    /// The events of a category that start within `start..=end`, ordered by start.
    fn query_by_date_range_and_category(
        &self,
        start: DateTime,
        end: DateTime,
        category_name: &str,
    ) -> Result<Vec<&Event>, EventStoreError>;
}

impl EventStore for InMemoryEventStore {
    fn create(&mut self, event: Event) -> (r: Result<String, EventStoreError>)
        ensures
            match r {
                Ok(id) => {
                    &&& !old(self)@.contains_key(event.id@)
                    &&& id@ == event.id@
                    &&& final(self)@ == old(self)@.insert(event.id@, event)
                    &&& final(self).entries() == old(self).entries().push(event)
                },
                Err(e) => {
                    &&& old(self)@.contains_key(event.id@)
                    &&& e == EventStoreError::AlreadyExists(event.id)
                    &&& final(self)@ == old(self)@
                    &&& final(self).entries() == old(self).entries()
                },
            },
    {
        proof {
            use_type_invariant(&*self);
        }
        match position_of_id(&self.events, event.id.as_str()) {
            Some(i) => {
                proof {
                    lemma_index_of_id(self.events@, i as int);
                }
                Err(EventStoreError::AlreadyExists(event.id.clone()))
            },
            None => {
                let id = event.id.clone();
                let mut events: Vec<Event> = Vec::new();
                assert(ids_unique(events@));
                std::mem::swap(&mut events, &mut self.events);
                proof {
                    lemma_by_id_push(events@, event);
                }
                events.push(event);
                self.events = events;
                Ok(id)
            },
        }
    }

    fn read(&self, id: &str) -> (r: Result<&Event, EventStoreError>)
        ensures
            match r {
                Ok(e) => self@.contains_key(id@) && *e == self@[id@],
                Err(e) => !self@.contains_key(id@) && (e matches EventStoreError::NotFound(x) && x@ == id@),
            },
    {
        proof {
            use_type_invariant(self);
        }
        match position_of_id(&self.events, id) {
            Some(i) => {
                proof {
                    lemma_index_of_id(self.events@, i as int);
                }
                Ok(&self.events[i])
            },
            None => Err(EventStoreError::NotFound(String::from_str(id))),
        }
    }

    fn update(&mut self, event: Event) -> (r: Result<(), EventStoreError>)
        ensures
            match r {
                Ok(()) => old(self)@.contains_key(event.id@) && final(self)@ == old(self)@.insert(event.id@, event),
                Err(e) => {
                    &&& !old(self)@.contains_key(event.id@)
                    &&& e == EventStoreError::NotFound(event.id)
                    &&& final(self)@ == old(self)@
                    &&& final(self).entries() == old(self).entries()
                },
            },
    {
        proof {
            use_type_invariant(&*self);
        }
        match position_of_id(&self.events, event.id.as_str()) {
            Some(i) => {
                proof {
                    lemma_index_of_id(self.events@, i as int);
                    lemma_by_id_update(self.events@, i as int, event);
                }
                let mut events: Vec<Event> = Vec::new();
                assert(ids_unique(events@));
                std::mem::swap(&mut events, &mut self.events);
                events.set(i, event);
                self.events = events;
                Ok(())
            },
            None => Err(EventStoreError::NotFound(event.id.clone())),
        }
    }

    fn delete(&mut self, id: &str) -> (r: Result<Event, EventStoreError>)
        ensures
            match r {
                Ok(e) => {
                    &&& old(self)@.contains_key(id@)
                    &&& e == old(self)@[id@]
                    &&& final(self)@ == old(self)@.remove(id@)
                },
                Err(e) => {
                    &&& !old(self)@.contains_key(id@)
                    &&& e matches EventStoreError::NotFound(x) && x@ == id@
                    &&& final(self)@ == old(self)@
                    &&& final(self).entries() == old(self).entries()
                },
            },
    {
        proof {
            use_type_invariant(&*self);
        }
        match position_of_id(&self.events, id) {
            Some(i) => {
                proof {
                    lemma_index_of_id(self.events@, i as int);
                    lemma_by_id_remove(self.events@, i as int);
                }
                let mut events: Vec<Event> = Vec::new();
                assert(ids_unique(events@));
                std::mem::swap(&mut events, &mut self.events);
                let e = events.remove(i);
                self.events = events;
                Ok(e)
            },
            None => Err(EventStoreError::NotFound(String::from_str(id))),
        }
    }

    fn list(&self) -> (r: Vec<&Event>)
        ensures
            deref_events(r@) == sort_by_start(self.entries()),
            ids_unique(self.entries()),
            self@ == events_by_id(self.entries()),
    {
        proof {
            use_type_invariant(self);
        }
        let r = self.matching_sorted(None, None);
        proof {
            lemma_filter_all(self.entries(), matches(None, None));
        }
        r
    }

    fn query_by_date_range(&self, start: DateTime, end: DateTime) -> (r: Result<Vec<&Event>, EventStoreError>)
        ensures
            match r {
                Ok(v) => start.sort_key() <= end.sort_key() && deref_events(v@) == sort_by_start(
                    self.entries().filter(matches(Some((start, end)), None)),
                ),
                Err(e) => end.sort_key() < start.sort_key() && e == EventStoreError::InvalidDateRange,
            },
    {
        if !start.no_later_than(&end) {
            return Err(EventStoreError::InvalidDateRange);
        }
        let r = self.matching_sorted(Some((start, end)), None);
        Ok(r)
    }

    fn query_by_category(&self, category_name: &str) -> (r: Vec<&Event>)
        ensures
            deref_events(r@) == sort_by_start(
                self.entries().filter(matches(None, Some(category_name@))),
            ),
    {
        let r = self.matching_sorted(None, Some(category_name));
        r
    }

    fn query_by_date_range_and_category(
        &self,
        start: DateTime,
        end: DateTime,
        category_name: &str,
    ) -> (r: Result<Vec<&Event>, EventStoreError>)
        ensures
            match r {
                Ok(v) => start.sort_key() <= end.sort_key() && deref_events(v@) == sort_by_start(
                    self.entries().filter(matches(Some((start, end)), Some(category_name@))),
                ),
                Err(e) => end.sort_key() < start.sort_key() && e == EventStoreError::InvalidDateRange,
            },
    {
        if !start.no_later_than(&end) {
            return Err(EventStoreError::InvalidDateRange);
        }
        let r = self.matching_sorted(Some((start, end)), Some(category_name));
        Ok(r)
    }
}

/// Keeping everything keeps the sequence as it is.
pub proof fn lemma_filter_all<A>(s: Seq<A>, pred: spec_fn(A) -> bool)
    requires
        forall|a: A| #[trigger] pred(a),
    ensures
        s.filter(pred) == s,
    decreases s.len(),
{
    reveal(Seq::filter);
    if s.len() > 0 {
        lemma_filter_all(s.drop_last(), pred);
        assert(s.drop_last().push(s.last()) =~= s);
    }
}

/// A created event is what a read of its identifier returns, and a second create of the same
/// identifier is refused.
pub proof fn law_read_after_create(m: Map<Seq<char>, Event>, e: Event)
    requires
        !m.contains_key(e.id@),
    ensures
        m.insert(e.id@, e).contains_key(e.id@),
        m.insert(e.id@, e)[e.id@] == e,
{
}

/// A read after an update returns the updated event.
pub proof fn law_read_after_update(m: Map<Seq<char>, Event>, e: Event)
    requires
        m.contains_key(e.id@),
    ensures
        m.insert(e.id@, e)[e.id@] == e,
        m.insert(e.id@, e).dom() == m.dom(),
{
    assert(m.insert(e.id@, e).dom() =~= m.dom());
}

/// Deleting a created event restores the store's contents; a read of it then finds nothing.
pub proof fn law_delete_undoes_create(m: Map<Seq<char>, Event>, e: Event)
    requires
        !m.contains_key(e.id@),
    ensures
        m.insert(e.id@, e).remove(e.id@) == m,
        !m.insert(e.id@, e).remove(e.id@).contains_key(e.id@),
{
    assert(m.insert(e.id@, e).remove(e.id@) =~= m);
}

/// Operations on one identifier leave the events under other identifiers as they were.
pub proof fn law_other_ids_untouched(m: Map<Seq<char>, Event>, e: Event, k: Seq<char>)
    requires
        k != e.id@,
    ensures
        m.insert(e.id@, e).contains_key(k) == m.contains_key(k),
        m.contains_key(k) ==> m.insert(e.id@, e)[k] == m[k],
        m.remove(e.id@).contains_key(k) == m.contains_key(k),
        m.contains_key(k) ==> m.remove(e.id@)[k] == m[k],
{
}

/// What a query or a listing returns is ordered by start, and holds exactly the stored events that
/// match, each once.
pub proof fn law_query_sorted_and_exact(s: Seq<Event>, range: Option<(DateTime, DateTime)>, category: Option<Seq<char>>)
    ensures
        crate::sorting::sorted_by_start(sort_by_start(s.filter(matches(range, category)))),
        sort_by_start(s.filter(matches(range, category))).to_multiset() =~= s.filter(matches(range, category)).to_multiset(),
        forall|i: int| 0 <= i < sort_by_start(s.filter(matches(range, category))).len() ==>
            store_match(#[trigger] sort_by_start(s.filter(matches(range, category)))[i], range, category),
        forall|i: int| 0 <= i < s.len() && store_match(s[i], range, category) ==>
            sort_by_start(s.filter(matches(range, category))).contains(#[trigger] s[i]),
{
    broadcast use vstd::seq_lib::group_to_multiset_ensures;

    let f = s.filter(matches(range, category));
    let r = sort_by_start(f);
    crate::sorting::lemma_sort_by_start(f);
    assert forall|i: int| 0 <= i < r.len() implies store_match(#[trigger] r[i], range, category) by {
        assert(r.to_multiset().count(r[i]) > 0);
        assert(f.contains(r[i]));
        let j = choose|j: int| 0 <= j < f.len() && f[j] == r[i];
        s.lemma_filter_pred(matches(range, category), j);
    }
    assert forall|i: int| 0 <= i < s.len() && store_match(s[i], range, category) implies r.contains(#[trigger] s[i]) by {
        s.lemma_filter_contains(matches(range, category), i);
        assert(f.to_multiset().count(s[i]) > 0);
    }
}

impl Default for InMemoryEventStore {
    fn default() -> (r: Self)
        ensures
            r@ == Map::<Seq<char>, Event>::empty(),
            r.entries().len() == 0,
    {
        Self::new()
    }
}

} // verus!
