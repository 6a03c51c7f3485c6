use xs::error::Error;
use xs::item::NewItem;
use xs::poll::{Poll, Step, DEFAULT_INTERVAL_MS};
use xs::query::Query;
use xs::store::Log;

fn plain(topic: &str) -> NewItem {
    NewItem {
        topic: topic.to_string(),
        attribute: None,
        source_id: None,
        parent_id: None,
        payload: None,
        secondary: None,
        status: 0,
    }
}

fn log_of(topics: &[&str]) -> Result<Log, Error> {
    let mut log = Log::new();
    for topic in topics {
        log.append(plain(topic), 0).unwrap();
    }
    Ok(log)
}

#[test]
fn poll_sleeps_for_the_default_interval_on_an_empty_answer() {
    assert_eq!(DEFAULT_INTERVAL_MS, 100);
    let poll = Poll::new(Query::all(0), 0);
    assert_eq!(poll.step(&log_of(&[]), false), Step::Sleep(100));
}

#[test]
fn poll_sleeps_for_the_interval_it_was_given() {
    let poll = Poll::new(Query::all(0), 0).every(250);
    assert_eq!(poll.step(&log_of(&[]), false), Step::Sleep(250));
}

#[test]
fn poll_never_returns_an_item_at_or_below_the_cursor() {
    let answer = log_of(&["a", "a", "a"]);
    for cursor in -2..3 {
        match Poll::new(Query::all(0), cursor).step(&answer, false) {
            Step::Found(item) => assert_eq!(item.id, cursor.max(0) + 1),
            other => panic!("{:?}", other),
        }
    }
    assert_eq!(Poll::new(Query::all(0), 3).step(&answer, false), Step::Sleep(100));
    assert_eq!(Poll::new(Query::all(0), i64::MAX).step(&answer, false), Step::Sleep(100));
}

#[test]
fn poll_returns_the_lowest_match_once_it_exists() {
    let poll = Poll::new(Query::topic("b".to_string(), 0), 1);
    assert_eq!(poll.step(&log_of(&["b", "a"]), false), Step::Sleep(100));
    match poll.step(&log_of(&["b", "a", "b", "b"]), false) {
        Step::Found(item) => assert_eq!(item.id, 3),
        other => panic!("{:?}", other),
    }
}

#[test]
fn poll_uses_its_cursor_and_not_that_of_the_query() {
    let poll = Poll::new(Query::all(2), 0);
    assert_eq!(poll.request().min_id, 0);
    match poll.step(&log_of(&["a", "a", "a"]), false) {
        Step::Found(item) => assert_eq!(item.id, 1),
        other => panic!("{:?}", other),
    }
}

#[test]
fn poll_retries_on_not_found_and_aborts_on_any_other_error() {
    let poll = Poll::new(Query::all(0), 0);
    assert_eq!(poll.step(&Err(Error::NotFound), false), Step::Sleep(100));
    assert_eq!(poll.step(&Err(Error::Store), false), Step::Abort(Error::Store));
    assert_eq!(poll.step(&Err(Error::Subprocess), false), Step::Abort(Error::Subprocess));
    assert_eq!(poll.step(&Err(Error::Encoding), false), Step::Abort(Error::Encoding));
}

#[test]
fn poll_stops_when_told_to_whatever_the_answer() {
    let poll = Poll::new(Query::all(0), 0);
    assert_eq!(poll.step(&log_of(&["a"]), true), Step::Cancelled);
    assert_eq!(poll.step(&log_of(&[]), true), Step::Cancelled);
    assert_eq!(poll.step(&Err(Error::Store), true), Step::Cancelled);
    assert_eq!(poll.step(&Err(Error::NotFound), true), Step::Cancelled);
}
