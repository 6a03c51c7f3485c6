use xs::sse::{parse_sse, try_parse_sse, Event, Pending, SseError, SseReader};

#[test]
fn test_parse_sse() {
    let mut buf = SseReader::new(": welcome\nid: 1\ndata: foo\ndata: bar\n\nid: 2\ndata: hai\n\n");

    let event = parse_sse(&mut buf).unwrap();
    assert_eq!(
        event,
        Event {
            data: "foo bar".into(),
            event: None,
            id: Some(1),
        }
    );

    let event = parse_sse(&mut buf).unwrap();
    assert_eq!(
        event,
        Event {
            data: "hai".into(),
            event: None,
            id: Some(2),
        }
    );
}

#[test]
fn parse_sse_ends_with_the_stream() {
    let mut buf = SseReader::new("id: 7\ndata: x\n\n");
    assert!(parse_sse(&mut buf).is_some());
    assert!(buf.is_empty());
    assert_eq!(parse_sse(&mut buf), None);
}

#[test]
fn parse_sse_interrupted_event_is_dropped() {
    let mut buf = SseReader::new("id: 7\ndata: half");
    assert_eq!(parse_sse(&mut buf), None);
    assert!(buf.is_empty());
}

#[test]
fn parse_sse_event_without_fields() {
    let mut buf = SseReader::new("\n");
    assert_eq!(
        parse_sse(&mut buf),
        Some(Event { data: String::new(), event: None, id: None })
    );
}

#[test]
fn parse_sse_trims_values_and_keeps_empty_pieces() {
    let mut buf = SseReader::new("data:\ndata:  \t padded \u{3000}\ndata:a:b\nid:-12\n\n");
    assert_eq!(
        parse_sse(&mut buf),
        Some(Event { data: " padded a:b".into(), event: None, id: Some(-12) })
    );
}

#[test]
fn parse_sse_last_id_wins() {
    let mut buf = SseReader::new("id: 1\nid: +2\n\n");
    assert_eq!(
        parse_sse(&mut buf),
        Some(Event { data: String::new(), event: None, id: Some(2) })
    );
}

#[test]
fn try_parse_sse_reports_a_line_without_colon() {
    let mut buf = SseReader::new("data: ok\nno colon here\ndata: next\n\n");
    assert_eq!(try_parse_sse(&mut buf), Err(SseError::MissingColon));
    assert_eq!(
        try_parse_sse(&mut buf),
        Ok(Some(Event { data: "next".into(), event: None, id: None }))
    );
}

#[test]
fn try_parse_sse_reports_a_carriage_return_line() {
    let mut buf = SseReader::new("data: x\r\n\r\n");
    assert_eq!(try_parse_sse(&mut buf), Err(SseError::MissingColon));
}

#[test]
fn try_parse_sse_reports_a_bad_id() {
    for text in ["id: seven\n\n", "id:\n\n", "id: 1 2\n\n", "id: 9223372036854775808\n\n", "id: -\n\n", "id: 1_000\n\n"] {
        let mut buf = SseReader::new(text);
        assert_eq!(try_parse_sse(&mut buf), Err(SseError::BadId), "{:?}", text);
    }
}

#[test]
fn try_parse_sse_reads_the_extreme_ids() {
    let mut buf = SseReader::new("id: 9223372036854775807\n\nid: -9223372036854775808\n\nid: 000000000000000000000000042\n\n");
    assert_eq!(try_parse_sse(&mut buf).unwrap().unwrap().id, Some(i64::MAX));
    assert_eq!(try_parse_sse(&mut buf).unwrap().unwrap().id, Some(i64::MIN));
    assert_eq!(try_parse_sse(&mut buf).unwrap().unwrap().id, Some(42));
}

#[test]
fn try_parse_sse_reports_an_unknown_field() {
    let mut buf = SseReader::new("event: update\n\n");
    assert_eq!(try_parse_sse(&mut buf), Err(SseError::UnknownField));
    let mut buf = SseReader::new("Data: x\n\n");
    assert_eq!(try_parse_sse(&mut buf), Err(SseError::UnknownField));
}

#[test]
fn try_parse_sse_agrees_with_std_on_ids() {
    for text in ["0", "-0", "+0", "17", "-17", "+17", "", "+", "-", "--1", "1-", " 1", "1 ", "٣", "9223372036854775807", "9223372036854775808", "-9223372036854775808", "-9223372036854775809", "99999999999999999999999"] {
        let mut buf = SseReader::new(&format!("id:{}\n\n", text));
        let expected = text.trim().parse::<i64>().ok();
        match try_parse_sse(&mut buf) {
            Ok(Some(event)) => assert_eq!(event.id, expected, "{:?}", text),
            Err(SseError::BadId) => assert_eq!(None, expected, "{:?}", text),
            other => panic!("{:?}: {:?}", text, other),
        }
    }
}

#[test]
fn push_line_gathers_an_event_line_by_line() {
    let mut pending = Pending::new();
    assert_eq!(pending.push_line(": welcome\n"), Ok(None));
    assert_eq!(pending.push_line("id: 1\n"), Ok(None));
    assert_eq!(pending.push_line("data: foo\n"), Ok(None));
    assert_eq!(pending.push_line("data: bar\n"), Ok(None));
    assert_eq!(
        pending.push_line("\n"),
        Ok(Some(Event { data: "foo bar".into(), event: None, id: Some(1) }))
    );
    assert_eq!(
        pending.push_line("\n"),
        Ok(Some(Event { data: String::new(), event: None, id: None }))
    );
}

#[test]
fn push_line_keeps_what_it_has_when_a_line_fails() {
    let mut pending = Pending::new();
    assert_eq!(pending.push_line("data: kept\n"), Ok(None));
    assert_eq!(pending.push_line(""), Err(SseError::MissingColon));
    assert_eq!(pending.push_line("retry: 5\n"), Err(SseError::UnknownField));
    assert_eq!(pending.push_line("id: x\n"), Err(SseError::BadId));
    assert_eq!(pending.push_line("data: too"), Ok(None));
    assert_eq!(
        pending.push_line("\n"),
        Ok(Some(Event { data: "kept too".into(), event: None, id: None }))
    );
}
