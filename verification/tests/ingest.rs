use xs::error::Error;
use xs::ingest::{last_id, put_event, put_one};
use xs::item::NewItem;
use xs::sse::{frame, parse_sse, try_parse_sse, Event, SseReader};
use xs::store::Log;
use xs::text::push_decimal;

#[test]
fn put_one_trims_the_data() {
    assert_eq!(
        put_one(Some(3), Some(2), "notes".to_string(), Some("memo".to_string()), "  two words\n"),
        NewItem {
            topic: "notes".to_string(),
            attribute: Some("memo".to_string()),
            source_id: Some(3),
            parent_id: Some(2),
            payload: Some("two words".to_string()),
            secondary: None,
            status: 0,
        }
    );
    assert_eq!(put_one(None, None, "t".to_string(), None, " \n ").payload, Some(String::new()));
}

#[test]
fn put_event_keeps_the_id_of_the_stream() {
    let event = Event { data: "foo bar".to_string(), event: None, id: Some(41) };
    assert_eq!(
        put_event("feed".to_string(), &event),
        NewItem {
            topic: "feed".to_string(),
            attribute: None,
            source_id: Some(41),
            parent_id: None,
            payload: Some("foo bar".to_string()),
            secondary: None,
            status: 0,
        }
    );
    let event = Event { data: String::new(), event: None, id: None };
    assert_eq!(put_event("feed".to_string(), &event).source_id, None);
}

#[test]
fn last_id_is_the_source_of_the_latest_item() {
    let mut log = Log::new();
    assert_eq!(last_id(&log, &"feed".to_string()), Ok(0));
    for id in [5, 9, 7] {
        let event = Event { data: "x".to_string(), event: None, id: Some(id) };
        log.append(put_event("feed".to_string(), &event), 0).unwrap();
    }
    let event = Event { data: "x".to_string(), event: None, id: Some(100) };
    log.append(put_event("other".to_string(), &event), 0).unwrap();
    assert_eq!(last_id(&log, &"feed".to_string()), Ok(7));
    assert_eq!(last_id(&log, &"other".to_string()), Ok(100));
    assert_eq!(last_id(&log, &"none".to_string()), Ok(0));
    let event = Event { data: "x".to_string(), event: None, id: None };
    log.append(put_event("feed".to_string(), &event), 0).unwrap();
    assert_eq!(last_id(&log, &"feed".to_string()), Err(Error::NotFound));
}

#[test]
fn push_decimal_writes_like_std() {
    for x in [0i64, 1, 9, 10, 11, 99, 100, 12345, -1, -9, -10, -12345, i64::MAX, i64::MIN, i64::MIN + 1] {
        let mut out = String::from("n=");
        push_decimal(&mut out, x);
        assert_eq!(out, format!("n={}", x));
    }
}

#[test]
fn frame_writes_one_event() {
    assert_eq!(frame(1, "hello"), "id: 1\ndata: hello\n\n");
    assert_eq!(frame(-20, "  two\nlines \n"), "id: -20\ndata: two\ndata: lines\n\n");
    assert_eq!(frame(3, ""), "id: 3\ndata: \n\n");
    assert_eq!(frame(4, "a\n\nb"), "id: 4\ndata: a\ndata: \ndata: b\n\n");
}

#[test]
fn frame_is_read_back_by_parse_sse() {
    let text = format!("{}{}", frame(7, "foo\nbar"), frame(8, " hai "));
    let mut buf = SseReader::new(&text);
    assert_eq!(
        parse_sse(&mut buf),
        Some(Event { data: "foo bar".to_string(), event: None, id: Some(7) })
    );
    assert_eq!(
        try_parse_sse(&mut buf),
        Ok(Some(Event { data: "hai".to_string(), event: None, id: Some(8) }))
    );
    assert_eq!(parse_sse(&mut buf), None);
}
