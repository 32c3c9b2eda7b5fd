use clawd_cal::datetime::{Date, DateTime};
use clawd_cal::events::{Category, Event};
use clawd_cal::store::{EventStore, EventStoreError, InMemoryEventStore};

fn create_test_event(title: &str, day: u32, hour: u32) -> Event {
    let start = Date::from_ymd_opt(2024, 1, day).unwrap().and_hms_opt(hour, 0, 0).unwrap();
    let end = Date::from_ymd_opt(2024, 1, day).unwrap().and_hms_opt(hour + 1, 0, 0).unwrap();
    Event::new(title.to_string(), start, end)
}

fn moment(day: u32, hour: u32, minute: u32, second: u32) -> DateTime {
    Date::from_ymd_opt(2024, 1, day).unwrap().and_hms_opt(hour, minute, second).unwrap()
}

#[test]
fn test_create_event() {
    let mut store = InMemoryEventStore::new();
    let event = create_test_event("Test Event", 15, 10);
    let id = event.id.clone();

    let result = store.create(event);
    assert!(result.is_ok());
    assert_eq!(result.unwrap(), id);
}

#[test]
fn test_create_duplicate_event() {
    let mut store = InMemoryEventStore::new();
    let event = create_test_event("Test Event", 15, 10);
    let event_clone = event.clone();

    store.create(event).unwrap();
    let result = store.create(event_clone);

    assert!(result.is_err());
    assert!(matches!(result.unwrap_err(), EventStoreError::AlreadyExists(_)));
}

#[test]
fn test_read_event() {
    let mut store = InMemoryEventStore::new();
    let event = create_test_event("Test Event", 15, 10);
    let id = event.id.clone();

    store.create(event).unwrap();
    let result = store.read(&id);

    assert!(result.is_ok());
    assert_eq!(result.unwrap().title, "Test Event");
}

#[test]
fn test_read_nonexistent_event() {
    let store = InMemoryEventStore::new();
    let result = store.read("nonexistent");

    assert!(result.is_err());
    assert!(matches!(result.unwrap_err(), EventStoreError::NotFound(_)));
}

#[test]
fn test_update_event() {
    let mut store = InMemoryEventStore::new();
    let mut event = create_test_event("Original Title", 15, 10);
    let id = event.id.clone();

    store.create(event.clone()).unwrap();

    event.title = "Updated Title".to_string();
    let result = store.update(event);

    assert!(result.is_ok());
    assert_eq!(store.read(&id).unwrap().title, "Updated Title");
}

#[test]
fn test_update_nonexistent_event() {
    let mut store = InMemoryEventStore::new();
    let event = create_test_event("Test Event", 15, 10);

    let result = store.update(event);

    assert!(result.is_err());
    assert!(matches!(result.unwrap_err(), EventStoreError::NotFound(_)));
}

#[test]
fn test_delete_event() {
    let mut store = InMemoryEventStore::new();
    let event = create_test_event("Test Event", 15, 10);
    let id = event.id.clone();

    store.create(event).unwrap();
    let result = store.delete(&id);

    assert!(result.is_ok());
    assert_eq!(result.unwrap().title, "Test Event");
    assert!(store.read(&id).is_err());
}

#[test]
fn test_delete_nonexistent_event() {
    let mut store = InMemoryEventStore::new();
    let result = store.delete("nonexistent");

    assert!(result.is_err());
    assert!(matches!(result.unwrap_err(), EventStoreError::NotFound(_)));
}

#[test]
fn test_list_events() {
    let mut store = InMemoryEventStore::new();

    store.create(create_test_event("Event 3", 17, 10)).unwrap();
    store.create(create_test_event("Event 1", 15, 10)).unwrap();
    store.create(create_test_event("Event 2", 16, 10)).unwrap();

    let events = store.list();

    assert_eq!(events.len(), 3);
    assert_eq!(events[0].title, "Event 1");
    assert_eq!(events[1].title, "Event 2");
    assert_eq!(events[2].title, "Event 3");
}

#[test]
fn test_query_by_date_range() {
    let mut store = InMemoryEventStore::new();

    store.create(create_test_event("Event 1", 10, 10)).unwrap();
    store.create(create_test_event("Event 2", 15, 10)).unwrap();
    store.create(create_test_event("Event 3", 20, 10)).unwrap();
    store.create(create_test_event("Event 4", 25, 10)).unwrap();

    let start = moment(12, 0, 0, 0);
    let end = moment(22, 23, 59, 59);

    let result = store.query_by_date_range(start, end);

    assert!(result.is_ok());
    let events = result.unwrap();
    assert_eq!(events.len(), 2);
    assert_eq!(events[0].title, "Event 2");
    assert_eq!(events[1].title, "Event 3");
}

#[test]
fn test_query_by_date_range_invalid() {
    let store = InMemoryEventStore::new();

    let start = moment(22, 0, 0, 0);
    let end = moment(12, 23, 59, 59);

    let result = store.query_by_date_range(start, end);

    assert!(result.is_err());
    assert!(matches!(result.unwrap_err(), EventStoreError::InvalidDateRange));
}

#[test]
fn test_query_by_category() {
    let mut store = InMemoryEventStore::new();

    let work_category = Category::new("Work".to_string());
    let personal_category = Category::new("Personal".to_string());

    let event1 = create_test_event("Event 1", 15, 10).with_category(work_category.clone());
    let event2 = create_test_event("Event 2", 16, 10).with_category(personal_category.clone());
    let event3 = create_test_event("Event 3", 17, 10).with_category(work_category.clone());
    let event4 = create_test_event("Event 4", 18, 10);

    store.create(event1).unwrap();
    store.create(event2).unwrap();
    store.create(event3).unwrap();
    store.create(event4).unwrap();

    let work_events = store.query_by_category("Work");
    assert_eq!(work_events.len(), 2);
    assert_eq!(work_events[0].title, "Event 1");
    assert_eq!(work_events[1].title, "Event 3");

    let personal_events = store.query_by_category("Personal");
    assert_eq!(personal_events.len(), 1);
    assert_eq!(personal_events[0].title, "Event 2");

    let nonexistent = store.query_by_category("Nonexistent");
    assert_eq!(nonexistent.len(), 0);
}

#[test]
fn test_query_by_date_range_and_category() {
    let mut store = InMemoryEventStore::new();

    let work_category = Category::new("Work".to_string());
    let personal_category = Category::new("Personal".to_string());

    let event1 = create_test_event("Event 1", 10, 10).with_category(work_category.clone());
    let event2 = create_test_event("Event 2", 15, 10).with_category(work_category.clone());
    let event3 = create_test_event("Event 3", 20, 10).with_category(personal_category.clone());
    let event4 = create_test_event("Event 4", 25, 10).with_category(work_category.clone());

    store.create(event1).unwrap();
    store.create(event2).unwrap();
    store.create(event3).unwrap();
    store.create(event4).unwrap();

    let start = moment(12, 0, 0, 0);
    let end = moment(22, 23, 59, 59);

    let result = store.query_by_date_range_and_category(start, end, "Work");

    assert!(result.is_ok());
    let events = result.unwrap();
    assert_eq!(events.len(), 1);
    assert_eq!(events[0].title, "Event 2");
}

#[test]
fn test_query_by_date_range_and_category_invalid_range() {
    let store = InMemoryEventStore::new();

    let start = moment(22, 0, 0, 0);
    let end = moment(12, 23, 59, 59);

    let result = store.query_by_date_range_and_category(start, end, "Work");

    assert!(result.is_err());
    assert!(matches!(result.unwrap_err(), EventStoreError::InvalidDateRange));
}

#[test]
fn test_empty_store() {
    let store = InMemoryEventStore::new();

    assert_eq!(store.list().len(), 0);
    assert_eq!(store.query_by_category("Any").len(), 0);
}

#[test]
fn read_after_create_gives_the_event_back() {
    let mut store = InMemoryEventStore::new();
    let event = create_test_event("Stored", 15, 10).with_description("kept".to_string());
    let id = store.create(event.clone()).unwrap();
    let read = store.read(&id).unwrap();
    assert_eq!(read.title, event.title);
    assert_eq!(read.description, event.description);
    assert_eq!(read.start_time, event.start_time);
}

#[test]
fn delete_undoes_create_and_leaves_others() {
    let mut store = InMemoryEventStore::new();
    let kept = create_test_event("Kept", 14, 9);
    let kept_id = store.create(kept).unwrap();
    let added = create_test_event("Added", 15, 10);
    let added_id = store.create(added).unwrap();
    store.delete(&added_id).unwrap();
    assert!(store.read(&added_id).is_err());
    assert_eq!(store.read(&kept_id).unwrap().title, "Kept");
    assert_eq!(store.list().len(), 1);
}

#[test]
fn refused_create_leaves_the_stored_event() {
    let mut store = InMemoryEventStore::new();
    let mut event = create_test_event("First", 15, 10);
    let id = store.create(event.clone()).unwrap();
    event.title = "Second".to_string();
    assert_eq!(store.create(event), Err(EventStoreError::AlreadyExists(id.clone())));
    assert_eq!(store.read(&id).unwrap().title, "First");
}

#[test]
fn range_query_includes_its_ends_and_accepts_equal_ends() {
    let mut store = InMemoryEventStore::new();
    store.create(create_test_event("At start", 12, 0)).unwrap();
    store.create(create_test_event("Outside", 12, 1)).unwrap();
    let at = moment(12, 0, 0, 0);
    let events = store.query_by_date_range(at, at).unwrap();
    assert_eq!(events.len(), 1);
    assert_eq!(events[0].title, "At start");
}

#[test]
fn store_error_messages() {
    assert_eq!(EventStoreError::NotFound("abc".to_string()).message(), "Event not found: abc");
    assert_eq!(EventStoreError::AlreadyExists("abc".to_string()).message(), "Event already exists: abc");
    assert_eq!(
        EventStoreError::InvalidDateRange.message(),
        "Invalid date range: start must be before end"
    );
}

#[test]
fn default_store_is_empty() {
    let store = InMemoryEventStore::default();
    assert!(store.list().is_empty());
}
