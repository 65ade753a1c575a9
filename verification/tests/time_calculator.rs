use worklog::calc::{calculate_unique_total_time, TimeEvent};

#[test]
fn test_trivial() {
    let result =
        calculate_unique_total_time(&mut [TimeEvent::new(true, 10), TimeEvent::new(false, 20)]);

    assert_eq!(result, 10);
}

#[test]
fn test_no_overlap() {
    let result = calculate_unique_total_time(&mut [
        TimeEvent::new(true, 10),
        TimeEvent::new(false, 20),
        TimeEvent::new(true, 20),
        TimeEvent::new(false, 30),
        TimeEvent::new(true, 40),
        TimeEvent::new(false, 50),
    ]);

    assert_eq!(result, 30);
}

#[test]
fn test_overlap() {
    let result = calculate_unique_total_time(&mut [
        TimeEvent::new(true, 10),
        TimeEvent::new(false, 20),
        TimeEvent::new(true, 15),
        TimeEvent::new(false, 30),
        TimeEvent::new(true, 25),
        TimeEvent::new(false, 40),
    ]);

    assert_eq!(result, 30);
}

#[test]
fn test_overlap_unsorted() {
    let result = calculate_unique_total_time(&mut [
        TimeEvent::new(false, 30),
        TimeEvent::new(true, 15),
        TimeEvent::new(false, 20),
        TimeEvent::new(true, 10),
        TimeEvent::new(true, 25),
        TimeEvent::new(false, 40),
    ]);

    assert_eq!(result, 30);
}

#[test]
fn test_complex() {
    let result = calculate_unique_total_time(&mut [
        TimeEvent::new(true, 1),
        TimeEvent::new(false, 43),
        TimeEvent::new(true, 20),
        TimeEvent::new(false, 34),
        TimeEvent::new(true, 50),
        TimeEvent::new(false, 70),
        TimeEvent::new(true, 100),
        TimeEvent::new(false, 120),
        TimeEvent::new(true, 110),
        TimeEvent::new(false, 150),
        TimeEvent::new(true, 80),
        TimeEvent::new(false, 85),
        TimeEvent::new(true, 56),
        TimeEvent::new(false, 77),
    ]);

    assert_eq!(result, 124);
}

#[test]
fn test_markers_are_sorted_in_place() {
    let mut markers = [
        TimeEvent::new(false, 30),
        TimeEvent::new(true, 15),
        TimeEvent::new(false, 20),
        TimeEvent::new(true, 10),
    ];
    let result = calculate_unique_total_time(&mut markers);

    assert_eq!(result, 20);
    assert_eq!(
        markers,
        [
            TimeEvent::new(true, 10),
            TimeEvent::new(true, 15),
            TimeEvent::new(false, 20),
            TimeEvent::new(false, 30),
        ]
    );
}

#[test]
fn test_same_markers_give_same_total_again() {
    let mut markers = [
        TimeEvent::new(true, 5),
        TimeEvent::new(false, 9),
        TimeEvent::new(true, 7),
        TimeEvent::new(false, 12),
    ];
    let first = calculate_unique_total_time(&mut markers);
    let second = calculate_unique_total_time(&mut markers);

    assert_eq!(first, 7);
    assert_eq!(second, 7);
}

#[test]
fn test_no_markers() {
    let result = calculate_unique_total_time(&mut []);

    assert_eq!(result, 0);
}
