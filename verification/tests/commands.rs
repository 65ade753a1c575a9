use worklog::command::edit::update_work_item;
use worklog::command::export::{event_timeline, find_earliest_work_item, find_latest_work_item};
use worklog::command::filter::{
    day_beginning, filter_keyword_to_time_range, filter_keyword_to_time_range_at, start_of_day,
};
use worklog::command::finish::{finish_all_paused_work_items, finish_all_paused_work_items_at};
use worklog::command::list::{calculate_total_work_time, calculate_total_work_time_at};
use worklog::command::pause::{
    pause_all_work_items_in_progress, pause_all_work_items_in_progress_at,
};
use worklog::data_access::patch::{
    needs_initialization, patches_to_apply, patches_to_latest, Patch1, Patch2, LATEST_VERSION,
};
use worklog::data_access::{find_item_by_id, list_items, log_item, Store, StoreError};
use worklog::entry::work_item::WorkItem as TimedItem;
use worklog::entry::LogEntry;
use worklog::work_item::{Event, EventType, Status, WorkItem};

const DAY: i64 = 86_400_000;

fn tags(names: &[&str]) -> Vec<String> {
    names.iter().map(|name| name.to_string()).collect()
}

fn item(id: i32, kinds_and_times: &[(EventType, i64)]) -> WorkItem {
    let events: Vec<Event> = kinds_and_times.iter().map(|(k, t)| Event::new(*k, *t)).collect();
    WorkItem::new_internal(id, format!("item {}", id), Status::Done, Vec::new(), events).unwrap()
}

#[test]
fn test_total_work_time_of_one_item_is_its_time_taken() {
    let one = item(
        1,
        &[
            (EventType::Started, 10),
            (EventType::Paused, 20),
            (EventType::Continued, 35),
            (EventType::Finished, 40),
        ],
    );
    assert_eq!(calculate_total_work_time_at(&[&one], 1_000), 15);
    assert_eq!(one.time_taken_at(1_000), 15);
}

#[test]
fn test_total_work_time_counts_overlap_once() {
    let first = item(1, &[(EventType::Started, 10), (EventType::Finished, 20)]);
    let second = item(2, &[(EventType::Started, 15), (EventType::Finished, 30)]);
    let third = item(3, &[(EventType::Started, 25), (EventType::Finished, 40)]);

    assert_eq!(calculate_total_work_time_at(&[&first, &second, &third], 100), 30);
    assert_eq!(calculate_total_work_time_at(&[&third, &first, &second], 100), 30);
    assert_eq!(calculate_total_work_time_at(&[], 100), 0);
}

#[test]
fn test_total_work_time_with_finish_after_pause() {
    let first = item(
        1,
        &[(EventType::Started, 0), (EventType::Paused, 10), (EventType::Finished, 20)],
    );
    let second = item(2, &[(EventType::Started, 15), (EventType::Finished, 30)]);

    assert_eq!(calculate_total_work_time_at(&[&first, &second], 100), 25);
}

#[test]
fn test_total_work_time_counts_items_in_progress_up_to_now() {
    let done = item(1, &[(EventType::Started, 10), (EventType::Finished, 20)]);
    let open = item(2, &[(EventType::Started, 50)]);
    let paused = item(3, &[(EventType::Started, 60), (EventType::Paused, 65)]);

    assert_eq!(calculate_total_work_time_at(&[&done, &open, &paused], 80), 10 + 30);
    assert_eq!(calculate_total_work_time_at(&[&done, &open, &paused], 50), 10 + 5);
    assert_eq!(calculate_total_work_time_at(&[&done, &open, &paused], 0), 10 + 5);
    assert!(calculate_total_work_time(&[&done, &paused]) == 15);
    assert!(calculate_total_work_time(&[&open]) > 1_000_000);
}

#[test]
fn test_latest_and_earliest_item() {
    let items = vec![
        item(1, &[(EventType::Started, 30), (EventType::Finished, 90)]),
        item(2, &[(EventType::Started, 10), (EventType::Paused, 95)]),
        item(3, &[(EventType::Started, 10), (EventType::Finished, 95)]),
        item(4, &[(EventType::Started, 50)]),
    ];

    assert_eq!(find_latest_work_item(&items).id(), Some(2));
    assert_eq!(find_earliest_work_item(&items).id(), Some(2));
    assert_eq!(find_latest_work_item(&items[..1]).id(), Some(1));
    assert_eq!(find_earliest_work_item(&items[3..]).id(), Some(4));
    assert_eq!(find_earliest_work_item(&items[..1]).id(), Some(1));
    assert_eq!(find_latest_work_item(&items[2..]).id(), Some(3));
}

#[test]
fn test_event_timeline_holds_the_closed_intervals() {
    let worked = item(
        1,
        &[
            (EventType::Started, 10),
            (EventType::Paused, 20),
            (EventType::Continued, 35),
            (EventType::Paused, 40),
            (EventType::Finished, 50),
        ],
    );
    assert_eq!(event_timeline(&worked), vec![(10, 20), (35, 40)]);
    assert_eq!(event_timeline(&item(2, &[(EventType::Started, 10)])), Vec::new());
    assert_eq!(
        event_timeline(&item(3, &[(EventType::Started, 10), (EventType::Finished, 10)])),
        vec![(10, 10)]
    );
}

fn store_of_three() -> Store {
    let mut store = Store::new();
    log_item(&mut store, WorkItem::new_at("running".to_string(), Vec::new(), 100)).unwrap();
    let mut paused = WorkItem::new_at("waiting".to_string(), Vec::new(), 200);
    paused.pause_working_at(250).unwrap();
    log_item(&mut store, paused).unwrap();
    let mut done = WorkItem::new_at("done".to_string(), Vec::new(), 300);
    done.finish_working(Some(350)).unwrap();
    log_item(&mut store, done).unwrap();
    log_item(&mut store, WorkItem::new_at("also running".to_string(), Vec::new(), 400)).unwrap();
    store
}

fn statuses(store: &Store) -> Vec<Status> {
    list_items(store).iter().map(|item| item.status()).collect()
}

#[test]
fn test_pause_all_pauses_what_is_in_progress() {
    let mut store = store_of_three();

    assert_eq!(pause_all_work_items_in_progress_at(&mut store, 500), Ok(()));

    assert_eq!(
        statuses(&store),
        vec![Status::Paused, Status::Paused, Status::Done, Status::Paused]
    );
    let first = find_item_by_id(&store, 1).unwrap();
    assert_eq!(
        first.events(),
        &[Event::new(EventType::Started, 100), Event::new(EventType::Paused, 500)]
    );
    assert_eq!(find_item_by_id(&store, 2).unwrap().events().len(), 2);
    assert_eq!(find_item_by_id(&store, 3).unwrap().events().len(), 2);
    assert_eq!(find_item_by_id(&store, 4).unwrap().time_taken_at(900), 100);
}

#[test]
fn test_pause_all_is_all_or_nothing() {
    let mut store = store_of_three();

    assert_eq!(
        pause_all_work_items_in_progress_at(&mut store, 399),
        Err("cannot append event: timestamp lies before the latest event")
    );

    assert_eq!(
        statuses(&store),
        vec![Status::InProgress, Status::Paused, Status::Done, Status::InProgress]
    );
    assert_eq!(find_item_by_id(&store, 1).unwrap().events().len(), 1);
    assert_eq!(pause_all_work_items_in_progress_at(&mut store, 400), Ok(()));
    assert_eq!(pause_all_work_items_in_progress_at(&mut store, 0), Ok(()));
}

#[test]
fn test_finish_all_finishes_what_is_paused() {
    let mut store = store_of_three();

    assert_eq!(finish_all_paused_work_items_at(&mut store, 249), Err(
        "cannot append event: timestamp lies before the latest event"
    ));
    assert_eq!(finish_all_paused_work_items_at(&mut store, 260), Ok(()));

    assert_eq!(
        statuses(&store),
        vec![Status::InProgress, Status::Done, Status::Done, Status::InProgress]
    );
    assert_eq!(
        find_item_by_id(&store, 2).unwrap().events(),
        &[
            Event::new(EventType::Started, 200),
            Event::new(EventType::Paused, 250),
            Event::new(EventType::Finished, 260),
        ]
    );
}

#[test]
fn test_pause_then_finish_all_by_the_clock() {
    let mut store = store_of_three();

    assert_eq!(pause_all_work_items_in_progress(&mut store), Ok(()));
    assert_eq!(finish_all_paused_work_items(&mut store), Ok(()));

    assert_eq!(statuses(&store), vec![Status::Done; 4]);
    assert_eq!(find_item_by_id(&store, 1).unwrap().events().len(), 3);
}

#[test]
fn test_update_work_item_changes_and_stores() {
    let mut store = store_of_three();
    let mut found = find_item_by_id(&store, 2).unwrap();

    assert_eq!(
        update_work_item(&mut store, &mut found, Some("renamed".to_string()), None),
        Ok(())
    );
    assert_eq!(find_item_by_id(&store, 2).unwrap().description(), "renamed");
    assert!(find_item_by_id(&store, 2).unwrap().tags().is_empty());

    assert_eq!(
        update_work_item(&mut store, &mut found, None, Some(tags(&["b", "a"]))),
        Ok(())
    );
    let stored = find_item_by_id(&store, 2).unwrap();
    assert_eq!(stored.description(), "renamed");
    assert_eq!(stored.tags(), tags(&["a", "b"]));
    assert_eq!(stored.status(), Status::Paused);

    let mut fresh = WorkItem::new_at("fresh".to_string(), Vec::new(), 1);
    assert_eq!(
        update_work_item(&mut store, &mut fresh, Some("x".to_string()), None),
        Err(StoreError::MissingId)
    );
    assert_eq!(fresh.description(), "x");
    let mut stranger = item(99, &[(EventType::Started, 1)]);
    assert_eq!(
        update_work_item(&mut store, &mut stranger, None, None),
        Err(StoreError::UnknownItem)
    );
    assert_eq!(list_items(&store).len(), 4);
}

#[test]
fn test_keywords_name_days() {
    let now = 19_000 * DAY + 12_345_678;
    assert_eq!(
        filter_keyword_to_time_range_at("today", now),
        Some((19_000 * DAY, 19_001 * DAY))
    );
    assert_eq!(
        filter_keyword_to_time_range_at("yesterday", now),
        Some((18_999 * DAY, 19_000 * DAY))
    );
    assert_eq!(filter_keyword_to_time_range_at("today", 19_000 * DAY), Some((19_000 * DAY, 19_001 * DAY)));
    assert_eq!(filter_keyword_to_time_range_at("today", 0), Some((0, DAY)));
    assert_eq!(filter_keyword_to_time_range_at("yesterday", 0), Some((-DAY, 0)));
    assert_eq!(filter_keyword_to_time_range_at("today", -1), Some((-DAY, 0)));
    assert_eq!(filter_keyword_to_time_range_at("today", -DAY), Some((-DAY, 0)));
    assert_eq!(filter_keyword_to_time_range_at("today", -DAY - 1), Some((-2 * DAY, -DAY)));
    assert_eq!(filter_keyword_to_time_range_at("today", i64::MAX), None);
    assert_eq!(filter_keyword_to_time_range_at("today", i64::MIN), None);
    assert_eq!(filter_keyword_to_time_range_at("yesterday", i64::MIN + DAY), None);
    assert_eq!(
        filter_keyword_to_time_range_at("yesterday", i64::MIN + 2 * DAY),
        Some((-9_223_372_036_828_800_000, -9_223_372_036_742_400_000))
    );
}

#[test]
fn test_days_begin_at_midnight() {
    assert_eq!(day_beginning(0), Some((0, DAY)));
    assert_eq!(day_beginning(-DAY), Some((-DAY, 0)));
    assert_eq!(day_beginning(7), Some((7, DAY + 7)));
    assert_eq!(day_beginning(i64::MAX - DAY), Some((i64::MAX - DAY, i64::MAX)));
    assert_eq!(day_beginning(i64::MAX - DAY + 1), None);
    assert_eq!(day_beginning(i64::MIN), Some((i64::MIN, i64::MIN + DAY)));

    assert_eq!(start_of_day(0), Some(0));
    assert_eq!(start_of_day(DAY - 1), Some(0));
    assert_eq!(start_of_day(DAY), Some(DAY));
    assert_eq!(start_of_day(-1), Some(-DAY));
    assert_eq!(start_of_day(-DAY), Some(-DAY));
    assert_eq!(start_of_day(i64::MAX), Some(i64::MAX - i64::MAX % DAY));
    assert_eq!(start_of_day(i64::MIN), None);
}

#[test]
fn test_dates_name_days() {
    assert_eq!(filter_keyword_to_time_range_at("1970-01-01", 5), Some((0, DAY)));
    assert_eq!(filter_keyword_to_time_range_at("1970-01-02", 5), Some((DAY, 2 * DAY)));
    assert_eq!(
        filter_keyword_to_time_range_at("2020-02-20", 5),
        Some((1_582_156_800_000, 1_582_156_800_000 + DAY))
    );
    assert_eq!(filter_keyword_to_time_range_at("1969-12-31", 5), Some((-DAY, 0)));
    assert_eq!(filter_keyword_to_time_range_at("2020-02-30", 5), None);
    assert_eq!(filter_keyword_to_time_range_at("tomorrow", 5), None);
    assert_eq!(filter_keyword_to_time_range_at("Today", 5), None);
    assert_eq!(filter_keyword_to_time_range_at("", 5), None);
}

#[test]
fn test_keywords_by_the_clock() {
    let (from, to) = filter_keyword_to_time_range("today").unwrap();
    let (before, until) = filter_keyword_to_time_range("yesterday").unwrap();
    assert_eq!(to - from, DAY);
    assert_eq!(from % DAY, 0);
    assert_eq!(until - before, DAY);
    assert!(until == from || until == from - DAY || until == from + DAY);
}

#[test]
fn test_patches() {
    assert_eq!(Patch1.version(), 1);
    assert_eq!(Patch2.version(), 2);
    assert_eq!(LATEST_VERSION, 1);
    assert_eq!(patches_to_apply(0, 1), vec![1]);
    assert_eq!(patches_to_apply(0, 2), vec![1]);
    assert_eq!(patches_to_apply(-1, 1), vec![1]);
    assert_eq!(patches_to_apply(1, 1), Vec::<i32>::new());
    assert_eq!(patches_to_apply(1, 2), Vec::<i32>::new());
    assert_eq!(patches_to_apply(0, 0), Vec::<i32>::new());
    assert_eq!(patches_to_apply(2, 0), Vec::<i32>::new());
    assert_eq!(patches_to_latest(0), vec![1]);
    assert_eq!(patches_to_latest(1), Vec::<i32>::new());
    assert_eq!(patches_to_latest(7), Vec::<i32>::new());
    assert!(needs_initialization(None));
    assert!(needs_initialization(Some(-1)));
    assert!(!needs_initialization(Some(0)));
    assert!(!needs_initialization(Some(1)));
}

#[test]
fn test_log_entry() {
    let mut entry =
        LogEntry::new_internal("meeting".to_string(), tags(&["team", "call", "team"]), 1800, 42);
    assert_eq!(entry.description(), "meeting");
    assert_eq!(entry.tags(), tags(&["call", "team"]));
    assert_eq!(entry.time_taken(), 1800);
    assert_eq!(entry.timestamp(), 42);
    entry.push_tag("agenda".to_string());
    entry.push_tag("call".to_string());
    assert_eq!(entry.tags(), tags(&["agenda", "call", "team"]));

    let now = LogEntry::new("now".to_string(), Vec::new(), 5);
    assert!(now.timestamp() > 1_500_000_000_000);
    assert_eq!(now.time_taken(), 5);
}

#[test]
fn test_item_with_counted_duration() {
    let mut timed = TimedItem::new_internal(
        3,
        "counted".to_string(),
        tags(&["y", "x"]),
        5_000,
        Status::Paused,
        77,
        Some(88),
    );
    assert_eq!(timed.id(), Some(3));
    assert_eq!(timed.description(), "counted");
    assert_eq!(timed.tags(), tags(&["x", "y"]));
    assert_eq!(timed.time_taken(), 5_000);
    assert_eq!(*timed.status(), Status::Paused);
    assert_eq!(timed.timestamp(), 77);
    assert_eq!(timed.timer_timestamp(), Some(88));

    timed.set_time_taken(6_000);
    timed.set_status(Status::Done);
    timed.set_timer_timestamp(None);
    timed.push_tag("w".to_string());
    assert_eq!(timed.time_taken(), 6_000);
    assert_eq!(*timed.status(), Status::Done);
    assert_eq!(timed.timer_timestamp(), None);
    assert_eq!(timed.tags(), tags(&["w", "x", "y"]));
    assert_eq!(timed.id(), Some(3));

    let fresh = TimedItem::new("fresh".to_string(), Vec::new(), 0, Status::InProgress);
    assert_eq!(fresh.id(), None);
    assert_eq!(fresh.timer_timestamp(), None);
    assert!(fresh.timestamp() > 1_500_000_000_000);
}
