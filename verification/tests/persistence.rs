use worklog::data_access::{
    clear, create_work_items, delete_item, find_item_by_id, find_items_by_status,
    find_items_by_timerange, list_items, log_item, update_items, EventRow, LogRow, Store,
    StoreError, TagRow,
};
use worklog::work_item::{Event, EventType, Status, WorkItem};

fn tags(names: &[&str]) -> Vec<String> {
    names.iter().map(|name| name.to_string()).collect()
}

fn started(description: &str, names: &[&str], at: i64) -> WorkItem {
    WorkItem::new_at(description.to_string(), tags(names), at)
}

#[test]
fn it_works() {
    assert_eq!(2 + 2, 4);
}

#[test]
fn test_insert_then_find_returns_the_item() {
    let mut store = Store::new();
    let mut item = started("write report", &["office", "writing", "office"], 100);
    item.pause_working_at(150).unwrap();
    item.continue_working_at(170).unwrap();

    let id = log_item(&mut store, item.duplicate()).unwrap();
    let found = find_item_by_id(&store, id).unwrap();

    assert_eq!(id, 1);
    assert_eq!(found.id(), Some(1));
    assert_eq!(found.description(), "write report");
    assert_eq!(found.tags(), tags(&["office", "writing"]));
    assert_eq!(found.events(), item.events());
    assert_eq!(found.status(), Status::InProgress);
}

#[test]
fn test_ids_count_up_from_the_greatest() {
    let mut store = Store::new();
    assert_eq!(log_item(&mut store, started("a", &[], 1)), Ok(1));
    assert_eq!(log_item(&mut store, started("b", &[], 2)), Ok(2));
    assert_eq!(log_item(&mut store, started("c", &[], 3)), Ok(3));
    assert!(delete_item(&mut store, 2).is_some());
    assert_eq!(log_item(&mut store, started("d", &[], 4)), Ok(4));
    assert!(delete_item(&mut store, 4).is_some());
    assert_eq!(log_item(&mut store, started("e", &[], 5)), Ok(4));
}

#[test]
fn test_no_id_is_left_behind_the_greatest_one() {
    let logs = vec![LogRow {
        id: i32::MAX,
        description: "last".to_string(),
        status: "IN_PROGRESS".to_string(),
    }];
    let events = vec![EventRow { log_id: i32::MAX, timestamp: 5, event: "STARTED".to_string() }];
    let mut store = Store::from_rows(&logs, &Vec::new(), &events).unwrap();

    assert_eq!(log_item(&mut store, started("one more", &[], 6)), Err(StoreError::NoFreeId));
    assert_eq!(list_items(&store).len(), 1);
}

#[test]
fn test_find_by_status_follows_the_events() {
    let mut store = Store::new();
    let first = log_item(&mut store, started("first", &[], 10)).unwrap();
    let second = log_item(&mut store, started("second", &[], 20)).unwrap();
    let mut paused = started("third", &[], 30);
    paused.pause_working_at(40).unwrap();
    let third = log_item(&mut store, paused).unwrap();

    let in_progress: Vec<Option<i32>> =
        find_items_by_status(&store, Status::InProgress).iter().map(|i| i.id()).collect();
    assert_eq!(in_progress, vec![Some(first), Some(second)]);
    let waiting: Vec<Option<i32>> =
        find_items_by_status(&store, Status::Paused).iter().map(|i| i.id()).collect();
    assert_eq!(waiting, vec![Some(third)]);
    assert!(find_items_by_status(&store, Status::Done).is_empty());

    let mut item = find_item_by_id(&store, first).unwrap();
    item.finish_working(Some(50)).unwrap();
    update_items(&mut store, vec![&item]).unwrap();

    let in_progress: Vec<Option<i32>> =
        find_items_by_status(&store, Status::InProgress).iter().map(|i| i.id()).collect();
    assert_eq!(in_progress, vec![Some(second)]);
    let done: Vec<Option<i32>> =
        find_items_by_status(&store, Status::Done).iter().map(|i| i.id()).collect();
    assert_eq!(done, vec![Some(first)]);
}

#[test]
fn test_clear_leaves_nothing() {
    let mut store = Store::new();
    let first = log_item(&mut store, started("first", &["x"], 10)).unwrap();
    let second = log_item(&mut store, started("second", &["y"], 20)).unwrap();

    clear(&mut store);

    assert!(list_items(&store).is_empty());
    assert!(find_item_by_id(&store, first).is_none());
    assert!(find_item_by_id(&store, second).is_none());
    let (logs, tag_rows, event_rows) = store.rows();
    assert!(logs.is_empty() && tag_rows.is_empty() && event_rows.is_empty());
    assert_eq!(log_item(&mut store, started("again", &[], 30)), Ok(1));
}

#[test]
fn test_time_range_matches_the_start_only() {
    let mut store = Store::new();
    let mut early = started("early", &[], 100);
    early.pause_working_at(250).unwrap();
    let early = log_item(&mut store, early).unwrap();
    let inside = log_item(&mut store, started("inside", &[], 200)).unwrap();
    let _at_end = log_item(&mut store, started("at end", &[], 300)).unwrap();

    let found: Vec<Option<i32>> =
        find_items_by_timerange(&store, 200, 300).iter().map(|i| i.id()).collect();
    assert_eq!(found, vec![Some(inside)]);
    let found: Vec<Option<i32>> =
        find_items_by_timerange(&store, 100, 200).iter().map(|i| i.id()).collect();
    assert_eq!(found, vec![Some(early)]);
    assert!(find_items_by_timerange(&store, 300, 300).is_empty());
    assert_eq!(find_items_by_timerange(&store, i64::MIN, i64::MAX).len(), 3);
}

#[test]
fn test_delete_returns_the_item_and_removes_it() {
    let mut store = Store::new();
    let first = log_item(&mut store, started("first", &["a", "b"], 10)).unwrap();
    let second = log_item(&mut store, started("second", &[], 20)).unwrap();

    let deleted = delete_item(&mut store, first).unwrap();
    assert_eq!(deleted.id(), Some(first));
    assert_eq!(deleted.description(), "first");
    assert_eq!(deleted.tags(), tags(&["a", "b"]));
    assert_eq!(deleted.events(), &[Event::new(EventType::Started, 10)]);

    assert!(delete_item(&mut store, first).is_none());
    assert!(find_item_by_id(&store, first).is_none());
    assert_eq!(list_items(&store).len(), 1);
    assert!(find_item_by_id(&store, second).is_some());
    let (logs, tag_rows, event_rows) = store.rows();
    assert_eq!(logs.len(), 1);
    assert!(tag_rows.is_empty());
    assert_eq!(event_rows.len(), 1);
}

#[test]
fn test_update_replaces_description_tags_and_events() {
    let mut store = Store::new();
    let id = log_item(&mut store, started("draft", &["old"], 10)).unwrap();
    let other = log_item(&mut store, started("other", &["keep"], 20)).unwrap();

    let mut item = find_item_by_id(&store, id).unwrap();
    item.set_description("final".to_string());
    item.set_tags(tags(&["new", "fresh"]));
    item.pause_working_at(15).unwrap();
    assert_eq!(update_items(&mut store, vec![&item]), Ok(()));

    let found = find_item_by_id(&store, id).unwrap();
    assert_eq!(found.description(), "final");
    assert_eq!(found.tags(), tags(&["fresh", "new"]));
    assert_eq!(
        found.events(),
        &[Event::new(EventType::Started, 10), Event::new(EventType::Paused, 15)]
    );
    assert_eq!(found.status(), Status::Paused);
    let untouched = find_item_by_id(&store, other).unwrap();
    assert_eq!(untouched.description(), "other");
    assert_eq!(untouched.tags(), tags(&["keep"]));
}

#[test]
fn test_update_is_all_or_nothing() {
    let mut store = Store::new();
    let id = log_item(&mut store, started("stored", &[], 10)).unwrap();
    let mut known = find_item_by_id(&store, id).unwrap();
    known.set_description("changed".to_string());

    let fresh = started("never stored", &[], 20);
    assert_eq!(update_items(&mut store, vec![&known, &fresh]), Err(StoreError::MissingId));
    assert_eq!(find_item_by_id(&store, id).unwrap().description(), "stored");

    let stranger = WorkItem::new_internal(
        77,
        "from elsewhere".to_string(),
        Status::InProgress,
        Vec::new(),
        vec![Event::new(EventType::Started, 5)],
    )
    .unwrap();
    assert_eq!(update_items(&mut store, vec![&known, &stranger]), Err(StoreError::UnknownItem));
    assert_eq!(find_item_by_id(&store, id).unwrap().description(), "stored");

    assert_eq!(update_items(&mut store, vec![&stranger, &fresh]), Err(StoreError::MissingId));
    assert_eq!(update_items(&mut store, Vec::new()), Ok(()));
}

#[test]
fn test_rows_of_a_store_read_back_as_the_store() {
    let mut store = Store::new();
    let mut first = started("first", &["b", "a"], 10);
    first.pause_working_at(20).unwrap();
    first.continue_working_at(20).unwrap();
    first.finish_working(Some(45)).unwrap();
    log_item(&mut store, first).unwrap();
    log_item(&mut store, started("second", &[], 30)).unwrap();

    let (logs, tag_rows, event_rows) = store.rows();
    assert_eq!(
        logs,
        vec![
            LogRow { id: 1, description: "first".to_string(), status: "DONE".to_string() },
            LogRow { id: 2, description: "second".to_string(), status: "IN_PROGRESS".to_string() },
        ]
    );
    assert_eq!(
        tag_rows,
        vec![
            TagRow { log_id: 1, tag: "a".to_string() },
            TagRow { log_id: 1, tag: "b".to_string() },
        ]
    );
    assert_eq!(
        event_rows,
        vec![
            EventRow { log_id: 1, timestamp: 10, event: "STARTED".to_string() },
            EventRow { log_id: 1, timestamp: 20, event: "PAUSED".to_string() },
            EventRow { log_id: 1, timestamp: 20, event: "CONTINUED".to_string() },
            EventRow { log_id: 1, timestamp: 45, event: "FINISHED".to_string() },
            EventRow { log_id: 2, timestamp: 30, event: "STARTED".to_string() },
        ]
    );

    let reloaded = Store::from_rows(&logs, &tag_rows, &event_rows).unwrap();
    let before = list_items(&store);
    let after = list_items(&reloaded);
    assert_eq!(before.len(), after.len());
    for (old, new) in before.iter().zip(after.iter()) {
        assert_eq!(old.id(), new.id());
        assert_eq!(old.description(), new.description());
        assert_eq!(old.tags(), new.tags());
        assert_eq!(old.events(), new.events());
        assert_eq!(old.status(), new.status());
    }
}

#[test]
fn test_rows_in_any_order_are_grouped_and_sorted() {
    let logs = vec![
        LogRow { id: 3, description: "three".to_string(), status: "PAUSED".to_string() },
        LogRow { id: 8, description: "eight".to_string(), status: "DONE".to_string() },
    ];
    let tag_rows = vec![
        TagRow { log_id: 8, tag: "zeta".to_string() },
        TagRow { log_id: 3, tag: "beta".to_string() },
        TagRow { log_id: 8, tag: "alpha".to_string() },
        TagRow { log_id: 99, tag: "orphan".to_string() },
    ];
    let event_rows = vec![
        EventRow { log_id: 8, timestamp: 90, event: "FINISHED".to_string() },
        EventRow { log_id: 3, timestamp: 40, event: "PAUSED".to_string() },
        EventRow { log_id: 8, timestamp: 50, event: "STARTED".to_string() },
        EventRow { log_id: 3, timestamp: 30, event: "STARTED".to_string() },
        EventRow { log_id: 99, timestamp: 1, event: "STARTED".to_string() },
    ];

    let items = create_work_items(&logs, &tag_rows, &event_rows).unwrap();

    assert_eq!(items.len(), 2);
    assert_eq!(items[0].id(), Some(3));
    assert_eq!(items[0].tags(), tags(&["beta"]));
    assert_eq!(
        items[0].events(),
        &[Event::new(EventType::Started, 30), Event::new(EventType::Paused, 40)]
    );
    assert_eq!(items[1].id(), Some(8));
    assert_eq!(items[1].tags(), tags(&["alpha", "zeta"]));
    assert_eq!(
        items[1].events(),
        &[Event::new(EventType::Started, 50), Event::new(EventType::Finished, 90)]
    );
}

#[test]
fn test_status_is_recomputed_from_the_events() {
    let logs =
        vec![LogRow { id: 1, description: "drifted".to_string(), status: "DONE".to_string() }];
    let event_rows = vec![
        EventRow { log_id: 1, timestamp: 10, event: "STARTED".to_string() },
        EventRow { log_id: 1, timestamp: 20, event: "PAUSED".to_string() },
        EventRow { log_id: 1, timestamp: 30, event: "CONTINUED".to_string() },
    ];

    let items = create_work_items(&logs, &Vec::new(), &event_rows).unwrap();

    assert_eq!(items[0].status(), Status::InProgress);
}

#[test]
fn test_unreadable_rows_are_refused() {
    let good_log =
        || vec![LogRow { id: 1, description: "x".to_string(), status: "PAUSED".to_string() }];
    let good_events = || {
        vec![
            EventRow { log_id: 1, timestamp: 10, event: "STARTED".to_string() },
            EventRow { log_id: 1, timestamp: 20, event: "PAUSED".to_string() },
        ]
    };
    assert!(create_work_items(&good_log(), &Vec::new(), &good_events()).is_ok());

    let bad_status =
        vec![LogRow { id: 1, description: "x".to_string(), status: "paused".to_string() }];
    assert_eq!(
        create_work_items(&bad_status, &Vec::new(), &good_events()).err(),
        Some(StoreError::UnreadableStatus)
    );

    let bad_event = vec![
        EventRow { log_id: 1, timestamp: 10, event: "STARTED".to_string() },
        EventRow { log_id: 2, timestamp: 20, event: "STOPPED".to_string() },
    ];
    assert_eq!(
        create_work_items(&good_log(), &Vec::new(), &bad_event).err(),
        Some(StoreError::UnreadableEvent)
    );
    assert_eq!(
        create_work_items(&bad_status, &Vec::new(), &bad_event).err(),
        Some(StoreError::UnreadableStatus)
    );

    let no_events: Vec<EventRow> = Vec::new();
    assert_eq!(
        create_work_items(&good_log(), &Vec::new(), &no_events).err(),
        Some(StoreError::MalformedLog)
    );
    let no_start = vec![EventRow { log_id: 1, timestamp: 10, event: "PAUSED".to_string() }];
    assert_eq!(
        create_work_items(&good_log(), &Vec::new(), &no_start).err(),
        Some(StoreError::MalformedLog)
    );
    let twice_started = vec![
        EventRow { log_id: 1, timestamp: 10, event: "STARTED".to_string() },
        EventRow { log_id: 1, timestamp: 20, event: "STARTED".to_string() },
    ];
    assert_eq!(
        create_work_items(&good_log(), &Vec::new(), &twice_started).err(),
        Some(StoreError::MalformedLog)
    );

    let disordered = vec![
        LogRow { id: 2, description: "b".to_string(), status: "IN_PROGRESS".to_string() },
        LogRow { id: 1, description: "a".to_string(), status: "IN_PROGRESS".to_string() },
    ];
    let both = vec![
        EventRow { log_id: 1, timestamp: 10, event: "STARTED".to_string() },
        EventRow { log_id: 2, timestamp: 20, event: "STARTED".to_string() },
    ];
    assert!(create_work_items(&disordered, &Vec::new(), &both).is_ok());
    assert_eq!(
        Store::from_rows(&disordered, &Vec::new(), &both).err(),
        Some(StoreError::DisorderedIds)
    );
}

#[test]
fn test_store_error_messages_differ() {
    let errors = [
        StoreError::UnreadableStatus,
        StoreError::UnreadableEvent,
        StoreError::MalformedLog,
        StoreError::DisorderedIds,
        StoreError::NoFreeId,
        StoreError::MissingId,
        StoreError::UnknownItem,
    ];
    for (i, a) in errors.iter().enumerate() {
        assert!(!a.message().is_empty());
        for b in errors.iter().skip(i + 1) {
            assert_ne!(a.message(), b.message());
        }
    }
}
