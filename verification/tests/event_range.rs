use strecklistan::events::{assemble_event_range, event_range_query, EventRangeQuery};

#[test]
fn query_limits_follow_the_range() {
    assert_eq!(event_range_query(-3, 2), EventRangeQuery { previous_limit: Some(3), upcoming_limit: Some(2) });
    assert_eq!(event_range_query(0, 5), EventRangeQuery { previous_limit: None, upcoming_limit: Some(5) });
    assert_eq!(event_range_query(2, 5), EventRangeQuery { previous_limit: None, upcoming_limit: Some(5) });
    assert_eq!(event_range_query(-5, -2), EventRangeQuery { previous_limit: Some(5), upcoming_limit: None });
}

#[test]
fn range_around_now_lists_upcoming_reversed_then_previous() {
    // previous: newest first; upcoming: soonest first
    let previous = vec!["p1", "p2", "p3"];
    let upcoming = vec!["u1", "u2"];
    assert_eq!(assemble_event_range(previous, upcoming, -3, 2), vec!["u2", "u1", "p1", "p2", "p3"]);
}

#[test]
fn range_in_the_future_skips_the_first_upcoming() {
    let upcoming = vec!["u1", "u2", "u3", "u4", "u5"];
    assert_eq!(assemble_event_range(Vec::new(), upcoming, 2, 5), vec!["u5", "u4", "u3"]);
}

#[test]
fn range_in_the_past_skips_the_latest_previous() {
    let previous = vec!["p1", "p2", "p3", "p4", "p5"];
    assert_eq!(assemble_event_range(previous, Vec::new(), -5, -2), vec!["p3", "p4", "p5"]);
}

#[test]
fn range_skipping_more_than_loaded_is_empty() {
    let previous = vec!["p1", "p2"];
    assert_eq!(assemble_event_range(previous, Vec::<&str>::new(), -5, -3), Vec::<&str>::new());
    let upcoming = vec!["u1"];
    assert_eq!(assemble_event_range(Vec::<&str>::new(), upcoming, 1, 4), Vec::<&str>::new());
}

#[test]
fn range_never_exceeds_its_width() {
    let previous: Vec<i32> = (0..4).collect();
    let upcoming: Vec<i32> = (10..13).collect();
    let res = assemble_event_range(previous, upcoming, -4, 3);
    assert!(res.len() as i64 <= 3 - (-4));
    assert_eq!(res, vec![12, 11, 10, 0, 1, 2, 3]);
}

#[test]
fn adjacent_ranges_join() {
    // all finished events newest first, all upcoming events soonest first
    let finished = vec!["f0", "f1", "f2", "f3"];
    let upcoming = vec!["u0", "u1", "u2"];
    let load = |low: i64, high: i64| {
        let q = event_range_query(low, high);
        let previous: Vec<&str> = match q.previous_limit {
            Some(n) => finished.iter().take(n as usize).cloned().collect(),
            None => Vec::new(),
        };
        let next: Vec<&str> = match q.upcoming_limit {
            Some(n) => upcoming.iter().take(n as usize).cloned().collect(),
            None => Vec::new(),
        };
        assemble_event_range(previous, next, low, high)
    };
    for (low, mid, high) in [(-3, 1, 5), (-5, -2, 2), (1, 2, 4), (-6, -4, -1)] {
        let mut joined = load(mid, high);
        joined.extend(load(low, mid));
        assert_eq!(load(low, high), joined);
    }
    assert_eq!(load(-2, 2), vec!["u1", "u0", "f0", "f1"]);
}
