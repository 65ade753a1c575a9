use worklog::data_access::chronology::sort_events;
use worklog::text::{str_before, str_eq};
use worklog::work_item::clock::{get_current_timestamp, timestamp_of_reading};
use worklog::work_item::log::is_well_formed_log;
use worklog::work_item::tags::{insert_tag, normalize_tags};
use worklog::work_item::{Event, EventType, Status, WorkItem};

fn tags(names: &[&str]) -> Vec<String> {
    names.iter().map(|name| name.to_string()).collect()
}

#[test]
fn test_new_item_is_in_progress_with_one_started_event() {
    let before = get_current_timestamp();
    let item = WorkItem::new("task".to_string(), Status::Done, tags(&["b", "a", "b"]));
    let after = get_current_timestamp();

    assert_eq!(item.id(), None);
    assert_eq!(item.description(), "task");
    assert_eq!(item.tags(), tags(&["a", "b"]));
    assert_eq!(item.status(), Status::InProgress);
    assert_eq!(item.events().len(), 1);
    assert_eq!(item.events()[0].event_type(), EventType::Started);
    assert!(before <= item.created_timestamp() && item.created_timestamp() <= after);
    assert!(before > 1_500_000_000_000);
}

#[test]
fn test_single_started_finished_pair() {
    let mut item = WorkItem::new_at("task".to_string(), Vec::new(), 1_000);
    assert_eq!(item.finish_working(Some(4_500)), Ok(()));

    assert_eq!(item.status(), Status::Done);
    assert_eq!(
        item.events(),
        &[Event::new(EventType::Started, 1_000), Event::new(EventType::Finished, 4_500)]
    );
    assert_eq!(item.time_taken_at(4_500), 3_500);
    assert_eq!(item.time_taken_at(9_999), 3_500);
    assert_eq!(item.time_taken_at(0), 3_500);
    assert_eq!(item.time_taken(), 3_500);
}

#[test]
fn test_pause_is_refused_unless_in_progress() {
    let mut item = WorkItem::new_at("task".to_string(), Vec::new(), 10);
    assert_eq!(item.pause_working_at(20), Ok(()));

    assert_eq!(item.pause_working_at(30), Err("cannot pause: not in progress"));
    assert_eq!(item.pause_working(), Err("cannot pause: not in progress"));
    assert_eq!(item.status(), Status::Paused);
    assert_eq!(item.events().len(), 2);

    assert_eq!(item.finish_working(Some(40)), Ok(()));
    assert_eq!(item.pause_working_at(50), Err("cannot pause: not in progress"));
    assert_eq!(item.status(), Status::Done);
    assert_eq!(item.events().len(), 3);
}

#[test]
fn test_continue_is_refused_unless_paused() {
    let mut item = WorkItem::new_at("task".to_string(), Vec::new(), 10);
    assert_eq!(item.continue_working_at(20), Err("cannot continue: not paused"));
    assert_eq!(item.continue_working(), Err("cannot continue: not paused"));
    assert_eq!(item.events().len(), 1);
    assert_eq!(item.status(), Status::InProgress);

    item.finish_working(Some(30)).unwrap();
    assert_eq!(item.continue_working_at(40), Err("cannot continue: not paused"));
    assert_eq!(item.status(), Status::Done);
}

#[test]
fn test_finish_is_refused_when_done() {
    let mut item = WorkItem::new_at("task".to_string(), Vec::new(), 10);
    item.pause_working_at(20).unwrap();
    assert_eq!(item.finish_working(Some(30)), Ok(()));
    assert_eq!(item.status(), Status::Done);

    assert_eq!(item.finish_working(Some(40)), Err("cannot finish: already finished"));
    assert_eq!(item.finish_working(None), Err("cannot finish: already finished"));
    assert_eq!(item.finish_working_at(40), Err("cannot finish: already finished"));
    assert_eq!(item.events().len(), 3);
    assert_eq!(item.time_taken_at(1_000), 10);
}

#[test]
fn test_finish_while_in_progress_appends_one_event() {
    let mut item = WorkItem::new_at("task".to_string(), Vec::new(), 10);
    item.finish_working_at(25).unwrap();

    assert_eq!(
        item.events(),
        &[Event::new(EventType::Started, 10), Event::new(EventType::Finished, 25)]
    );
    assert_eq!(item.time_taken_at(100), 15);
}

#[test]
fn test_continue_after_pause() {
    let mut item = WorkItem::new_at("task".to_string(), Vec::new(), 1_000);
    item.pause_working_at(1_600).unwrap();
    assert_eq!(item.time_taken_at(5_000), 600);

    assert_eq!(item.continue_working_at(2_000), Ok(()));

    assert_eq!(item.status(), Status::InProgress);
    assert_eq!(
        item.events(),
        &[
            Event::new(EventType::Started, 1_000),
            Event::new(EventType::Paused, 1_600),
            Event::new(EventType::Continued, 2_000),
        ]
    );
    assert_eq!(item.time_taken_at(2_750), (1_600 - 1_000) + (2_750 - 2_000));
    assert_eq!(item.time_taken_at(2_000), 600);
}

#[test]
fn test_open_interval_counts_nothing_before_its_start() {
    let item = WorkItem::new_at("task".to_string(), Vec::new(), 1_000);

    assert_eq!(item.time_taken_at(1_000), 0);
    assert_eq!(item.time_taken_at(999), 0);
    assert_eq!(item.time_taken_at(i64::MIN), 0);
    assert_eq!(item.time_taken_at(i64::MAX), i64::MAX - 1_000);
    assert!(item.time_taken() >= 0);
}

#[test]
fn test_events_before_the_latest_are_refused() {
    let mut item = WorkItem::new_at("task".to_string(), Vec::new(), 1_000);
    let message = "cannot append event: timestamp lies before the latest event";

    assert_eq!(item.pause_working_at(999), Err(message));
    assert_eq!(item.finish_working(Some(999)), Err(message));
    assert_eq!(item.events().len(), 1);
    assert_eq!(item.status(), Status::InProgress);

    assert_eq!(item.pause_working_at(1_000), Ok(()));
    assert_eq!(item.continue_working_at(999), Err(message));
    assert_eq!(item.continue_working_at(1_000), Ok(()));
    assert_eq!(item.time_taken_at(1_000), 0);
}

#[test]
fn test_transitions_by_the_clock() {
    let mut item = WorkItem::new("task".to_string(), Status::InProgress, Vec::new());
    assert_eq!(item.pause_working(), Ok(()));
    assert_eq!(item.status(), Status::Paused);
    assert_eq!(item.continue_working(), Ok(()));
    assert_eq!(item.status(), Status::InProgress);
    assert_eq!(item.finish_working(None), Ok(()));
    assert_eq!(item.status(), Status::Done);

    let kinds: Vec<EventType> = item.events().iter().map(|e| e.event_type()).collect();
    assert_eq!(
        kinds,
        vec![EventType::Started, EventType::Paused, EventType::Continued, EventType::Finished]
    );
    let times: Vec<i64> = item.events().iter().map(|e| e.timestamp()).collect();
    assert!(times.windows(2).all(|pair| pair[0] <= pair[1]));
    assert_eq!(item.time_taken(), (times[1] - times[0]) + (times[3] - times[2]));
}

#[test]
fn test_new_internal_takes_valid_logs_only() {
    let log = vec![
        Event::new(EventType::Started, 5),
        Event::new(EventType::Paused, 9),
        Event::new(EventType::Finished, 9),
    ];
    let item =
        WorkItem::new_internal(7, "stored".to_string(), Status::InProgress, tags(&["t"]), log)
            .unwrap();
    assert_eq!(item.id(), Some(7));
    assert_eq!(item.status(), Status::Done);
    assert_eq!(item.time_taken_at(100), 4);
    assert_eq!(item.created_timestamp(), 5);
    assert_eq!(item.last_timestamp(), 9);

    let refused = |events: Vec<Event>| {
        WorkItem::new_internal(1, String::new(), Status::Done, Vec::new(), events).err()
    };
    assert_eq!(refused(Vec::new()), Some("malformed event log"));
    assert_eq!(refused(vec![Event::new(EventType::Paused, 5)]), Some("malformed event log"));
    assert_eq!(refused(vec![Event::new(EventType::Started, -1)]), Some("malformed event log"));
    assert_eq!(
        refused(vec![Event::new(EventType::Started, 5), Event::new(EventType::Paused, 4)]),
        Some("malformed event log")
    );
    assert_eq!(
        refused(vec![Event::new(EventType::Started, 5), Event::new(EventType::Continued, 6)]),
        Some("malformed event log")
    );
    assert_eq!(
        refused(vec![
            Event::new(EventType::Started, 5),
            Event::new(EventType::Finished, 6),
            Event::new(EventType::Continued, 7),
        ]),
        Some("malformed event log")
    );
}

#[test]
fn test_well_formed_logs() {
    let started = Event::new(EventType::Started, 0);
    assert!(is_well_formed_log(&vec![started]));
    assert!(is_well_formed_log(&vec![
        started,
        Event::new(EventType::Paused, 1),
        Event::new(EventType::Continued, 1),
        Event::new(EventType::Paused, 2),
        Event::new(EventType::Finished, 3),
    ]));
    assert!(!is_well_formed_log(&vec![started, started]));
    assert!(!is_well_formed_log(&Vec::new()));
}

#[test]
fn test_set_events_keeps_the_item_valid() {
    let mut item = WorkItem::new_at("task".to_string(), Vec::new(), 10);

    assert_eq!(item.set_events(Vec::new()), Err("malformed event log"));
    assert_eq!(item.events(), &[Event::new(EventType::Started, 10)]);

    let log = vec![Event::new(EventType::Started, 1), Event::new(EventType::Paused, 2)];
    assert_eq!(item.set_events(log.clone()), Ok(()));
    assert_eq!(item.events(), &log[..]);
    assert_eq!(item.status(), Status::Paused);
}

#[test]
fn test_tags_are_a_sorted_set() {
    let mut item = WorkItem::new_at("task".to_string(), tags(&["pear", "Apple", "apple"]), 10);
    assert_eq!(item.tags(), tags(&["Apple", "apple", "pear"]));

    item.push_tag("fig".to_string());
    item.push_tag("apple".to_string());
    assert_eq!(item.tags(), tags(&["Apple", "apple", "fig", "pear"]));

    item.set_tags(tags(&["z", "a", "z", "", "ä"]));
    assert_eq!(item.tags(), tags(&["", "a", "z", "ä"]));

    item.set_description("renamed".to_string());
    assert_eq!(item.description(), "renamed");
    assert_eq!(item.tags().len(), 4);
}

#[test]
fn test_tag_vectors() {
    let mut sorted = normalize_tags(tags(&["b", "ab", "a", "b", "abc"]));
    assert_eq!(sorted, tags(&["a", "ab", "abc", "b"]));
    insert_tag(&mut sorted, "aa".to_string());
    insert_tag(&mut sorted, "c".to_string());
    insert_tag(&mut sorted, "a".to_string());
    assert_eq!(sorted, tags(&["a", "aa", "ab", "abc", "b", "c"]));
}

#[test]
fn test_text_order_is_that_of_strings() {
    let samples = ["", "a", "A", "ab", "b", "ä", "z", "zz", "é", "日本", "a b", "a\u{10FFFF}"];
    for left in samples {
        for right in samples {
            assert_eq!(str_before(left, right), left < right);
            assert_eq!(str_eq(left, right), left == right);
        }
    }
}

#[test]
fn test_tokens() {
    for status in [Status::Done, Status::InProgress, Status::Paused] {
        assert_eq!(Status::from_str(&status.to_string()), Ok(status));
    }
    assert_eq!(Status::Done.to_string(), "DONE");
    assert_eq!(Status::InProgress.to_string(), "IN_PROGRESS");
    assert_eq!(Status::Paused.to_string(), "PAUSED");
    assert_eq!(Status::from_str("done"), Err(()));
    assert_eq!(Status::from_str(""), Err(()));
    assert_eq!(Status::from_str("STARTED"), Err(()));

    for kind in
        [EventType::Started, EventType::Paused, EventType::Continued, EventType::Finished]
    {
        assert_eq!(EventType::from_str(&kind.to_string()), Ok(kind));
    }
    assert_eq!(EventType::Started.to_string(), "STARTED");
    assert_eq!(EventType::Paused.to_string(), "PAUSED");
    assert_eq!(EventType::Continued.to_string(), "CONTINUED");
    assert_eq!(EventType::Finished.to_string(), "FINISHED");
    assert_eq!(EventType::from_str("DONE"), Err(()));
    assert_eq!(EventType::from_str("FINISHED "), Err(()));
}

#[test]
fn test_status_of_latest_event() {
    assert_eq!(Status::of_latest(EventType::Started), Status::InProgress);
    assert_eq!(Status::of_latest(EventType::Continued), Status::InProgress);
    assert_eq!(Status::of_latest(EventType::Paused), Status::Paused);
    assert_eq!(Status::of_latest(EventType::Finished), Status::Done);
}

#[test]
fn test_events() {
    let event = Event::new(EventType::Continued, 42);
    assert_eq!(event.event_type(), EventType::Continued);
    assert_eq!(event.timestamp(), 42);
    assert!(event.is_start());
    assert!(Event::new(EventType::Started, 0).is_start());
    assert!(!Event::new(EventType::Paused, 0).is_start());
    assert!(!Event::new(EventType::Finished, 0).is_start());
}

#[test]
fn test_events_are_sorted_by_timestamp_keeping_ties() {
    let sorted = sort_events(&vec![
        Event::new(EventType::Finished, 30),
        Event::new(EventType::Paused, 20),
        Event::new(EventType::Started, 10),
        Event::new(EventType::Continued, 20),
    ]);
    assert_eq!(
        sorted,
        vec![
            Event::new(EventType::Started, 10),
            Event::new(EventType::Paused, 20),
            Event::new(EventType::Continued, 20),
            Event::new(EventType::Finished, 30),
        ]
    );
    assert!(sort_events(&Vec::new()).is_empty());
}

#[test]
fn test_the_clock_does_not_precede_the_epoch() {
    assert!(get_current_timestamp() >= 0);
}

#[test]
fn test_readings_before_the_epoch_read_as_the_epoch() {
    assert_eq!(timestamp_of_reading(1_600_000_000_123), 1_600_000_000_123);
    assert_eq!(timestamp_of_reading(1), 1);
    assert_eq!(timestamp_of_reading(0), 0);
    assert_eq!(timestamp_of_reading(-1), 0);
    assert_eq!(timestamp_of_reading(i64::MIN), 0);
    assert_eq!(timestamp_of_reading(i64::MAX), i64::MAX);
}
