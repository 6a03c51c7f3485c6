use xs::call;
use xs::error::Error;
use xs::item::{Item, NewItem};
use xs::poll::{Poll, Step};
use xs::process::{relay, Output, Relay};
use xs::query::Query;
use xs::run;
use xs::session::{self, Egress};
use xs::store::Log;
use xs::transform::Transform;

fn entry(topic: &str, payload: &str) -> NewItem {
    NewItem {
        topic: topic.to_string(),
        attribute: None,
        source_id: None,
        parent_id: None,
        payload: Some(payload.to_string()),
        secondary: None,
        status: 0,
    }
}

fn ok(stdout: &str) -> Output {
    Output { stdout: stdout.as_bytes().to_vec(), stderr: Vec::new(), code: Some(0) }
}

fn found(poll: &Poll, log: Log) -> (Option<Item>, Log) {
    let answer = Ok(log);
    let item = match poll.step(&answer, false) {
        Step::Found(item) => Some(item),
        Step::Sleep(_) => None,
        other => panic!("{:?}", other),
    };
    (item, answer.unwrap())
}

/// One pass of a stage that runs `command` on what it finds, until it finds nothing.
fn drain(stage: &mut Transform, mut log: Log, command: fn(&str) -> Output) -> (Vec<i64>, Log) {
    let mut processed = Vec::new();
    loop {
        let (item, back) = found(&stage.wait(), log);
        log = back;
        let Some(input) = item else { break };
        let output = command(input.payload.as_deref().unwrap_or(""));
        let response = stage.complete(&input, output).unwrap();
        log.append(response, 0).unwrap();
        processed.push(input.id);
    }
    (processed, log)
}

fn cat(input: &str) -> Output {
    ok(input)
}

fn rev(input: &str) -> Output {
    ok(&input.chars().rev().collect::<String>())
}

#[test]
fn run_appends_what_the_command_made_of_the_item() {
    let mut log = Log::new();
    let id = log.append(entry("words", "hello"), 0).unwrap();
    let item = log.get(id).unwrap().clone();
    let stdin = match run::plan(&item) {
        run::Plan::Invoke(stdin) => stdin.unwrap(),
        other => panic!("{:?}", other),
    };
    assert_eq!(stdin, "hello");
    let new = run::result(&item, "rev".to_string(), rev(&stdin)).unwrap();
    let new_id = log.append(new, 0).unwrap();
    let stored = log.get(new_id).unwrap();
    assert_eq!(stored.topic, "rev");
    assert_eq!(stored.payload, Some("olleh".to_string()));
    assert_eq!(stored.secondary, Some(String::new()));
    assert_eq!(stored.status, 0);
    assert_eq!(stored.source_id, Some(id));
    assert_eq!(stored.parent_id, Some(id));
}

#[test]
fn run_keeps_the_root_of_the_chain() {
    let item = Item {
        id: 9,
        topic: "b".to_string(),
        attribute: None,
        stamp: 0,
        source_id: Some(4),
        parent_id: Some(8),
        payload: Some("x".to_string()),
        secondary: None,
        status: 0,
    };
    let new = run::result(&item, "c".to_string(), ok("y")).unwrap();
    assert_eq!(new.source_id, Some(4));
    assert_eq!(new.parent_id, Some(9));
    assert_eq!(new.attribute, Some("request".to_string()));
}

#[test]
fn run_does_not_invoke_on_a_failed_item() {
    let mut item = Item {
        id: 1,
        topic: "a".to_string(),
        attribute: None,
        stamp: 0,
        source_id: None,
        parent_id: None,
        payload: Some("poison".to_string()),
        secondary: None,
        status: 3,
    };
    assert_eq!(run::plan(&item), run::Plan::Exit(3));
    item.status = -1;
    assert_eq!(run::plan(&item), run::Plan::Exit(-1));
    item.status = 0;
    assert_eq!(run::plan(&item), run::Plan::Invoke(Some("poison".to_string())));
    item.payload = None;
    assert_eq!(run::plan(&item), run::Plan::Invoke(None));
}

#[test]
fn run_records_the_exit_code_and_the_error_output() {
    let item = Item {
        id: 1,
        topic: "a".to_string(),
        attribute: None,
        stamp: 0,
        source_id: None,
        parent_id: None,
        payload: None,
        secondary: None,
        status: 0,
    };
    let output = Output { stdout: b"part".to_vec(), stderr: b"boom".to_vec(), code: Some(7) };
    let new = run::result(&item, "b".to_string(), output).unwrap();
    assert_eq!(new.payload, Some("part".to_string()));
    assert_eq!(new.secondary, Some("boom".to_string()));
    assert_eq!(new.status, 7);
}

#[test]
fn run_rejects_output_that_is_not_text() {
    let item = Item {
        id: 1,
        topic: "a".to_string(),
        attribute: None,
        stamp: 0,
        source_id: None,
        parent_id: None,
        payload: None,
        secondary: None,
        status: 0,
    };
    let bad = Output { stdout: vec![0xff, 0xfe], stderr: Vec::new(), code: Some(0) };
    assert_eq!(run::result(&item, "b".to_string(), bad), Err(Error::Encoding));
    let bad = Output { stdout: Vec::new(), stderr: vec![0xc0, 0x80], code: Some(0) };
    assert_eq!(run::result(&item, "b".to_string(), bad), Err(Error::Encoding));
    let bad = Output { stdout: vec![0xed, 0xa0, 0x80], stderr: Vec::new(), code: None };
    assert_eq!(run::result(&item, "b".to_string(), bad), Err(Error::Encoding));
}

#[test]
fn run_rejects_a_command_without_exit_code() {
    let item = Item {
        id: 1,
        topic: "a".to_string(),
        attribute: None,
        stamp: 0,
        source_id: None,
        parent_id: None,
        payload: None,
        secondary: None,
        status: 0,
    };
    let killed = Output { stdout: b"x".to_vec(), stderr: Vec::new(), code: None };
    assert_eq!(run::result(&item, "b".to_string(), killed), Err(Error::Subprocess));
}

#[test]
fn run_decodes_text_beyond_ascii() {
    let item = Item {
        id: 1,
        topic: "a".to_string(),
        attribute: None,
        stamp: 0,
        source_id: None,
        parent_id: None,
        payload: None,
        secondary: None,
        status: 0,
    };
    let new = run::result(&item, "b".to_string(), ok("gr\u{fc}\u{df}e \u{1f600}")).unwrap();
    assert_eq!(new.payload, Some("gr\u{fc}\u{df}e \u{1f600}".to_string()));
}

#[test]
fn replay_passes_on_the_stored_result() {
    let item = Item {
        id: 5,
        topic: "a".to_string(),
        attribute: None,
        stamp: 0,
        source_id: None,
        parent_id: None,
        payload: None,
        secondary: Some("boom".to_string()),
        status: 7,
    };
    assert_eq!(
        run::replay(&item),
        Relay { stdout: None, stderr: Some("boom".to_string()), code: 7 }
    );
    let item = Item { payload: Some("out".to_string()), secondary: None, status: 0, ..item };
    assert_eq!(run::replay(&item), Relay { stdout: Some("out".to_string()), stderr: None, code: 0 });
    assert_eq!(relay(&item), run::replay(&item));
}

#[test]
fn call_request_has_no_source() {
    assert_eq!(
        call::request("in".to_string(), "ping".to_string()),
        NewItem {
            topic: "in".to_string(),
            attribute: Some("request".to_string()),
            source_id: None,
            parent_id: None,
            payload: Some("ping".to_string()),
            secondary: None,
            status: 0,
        }
    );
}

#[test]
fn call_waits_from_the_start_for_its_own_reply() {
    let poll = call::await_reply("out".to_string(), 12);
    assert_eq!(poll.cursor, 0);
    assert_eq!(poll.interval_ms, 100);
    assert_eq!(
        poll.request(),
        Query {
            topic: Some("out".to_string()),
            attribute: None,
            source_id: Some(12),
            min_id: 0,
            limit: Some(1),
        }
    );
}

#[test]
fn call_resolves_to_the_first_reply() {
    let mut log = Log::new();
    let id = log.append(call::request("in".to_string(), "ping".to_string()), 0).unwrap();
    let poll = call::await_reply("out".to_string(), id);
    let answer = Ok(log);
    assert_eq!(call::step(&poll, &answer, false), call::Outcome::Sleep(100));
    let mut log = answer.unwrap();
    let mut other = entry("out", "not mine");
    other.source_id = Some(id + 100);
    log.append(other, 0).unwrap();
    let mut elsewhere = entry("log", "wrong topic");
    elsewhere.source_id = Some(id);
    log.append(elsewhere, 0).unwrap();
    let answer = Ok(log);
    assert_eq!(call::step(&poll, &answer, false), call::Outcome::Sleep(100));
    let mut log = answer.unwrap();
    let mut first = entry("out", "first");
    first.source_id = Some(id);
    first.secondary = Some("note".to_string());
    first.status = 2;
    log.append(first, 0).unwrap();
    let mut second = entry("out", "second");
    second.source_id = Some(id);
    log.append(second, 0).unwrap();
    assert_eq!(
        call::step(&poll, &Ok(log), false),
        call::Outcome::Done(Relay {
            stdout: Some("first".to_string()),
            stderr: Some("note".to_string()),
            code: 2,
        })
    );
}

#[test]
fn call_stops_when_told_to() {
    let mut log = Log::new();
    let id = log.append(call::request("in".to_string(), "ping".to_string()), 0).unwrap();
    let mut reply = entry("out", "pong");
    reply.source_id = Some(id);
    log.append(reply, 0).unwrap();
    let poll = call::await_reply("out".to_string(), id);
    assert_eq!(call::step(&poll, &Ok(log), true), call::Outcome::Cancelled);
    assert_eq!(call::step(&poll, &Err(Error::Store), true), call::Outcome::Cancelled);
}

#[test]
fn call_gives_up_when_the_store_fails() {
    let poll = call::await_reply("out".to_string(), 1);
    assert_eq!(call::step(&poll, &Err(Error::Store), false), call::Outcome::Abort(Error::Store));
    assert_eq!(call::step(&poll, &Err(Error::NotFound), false), call::Outcome::Sleep(100));
}

#[test]
fn session_items_carry_their_roles() {
    assert_eq!(
        session::open("chat".to_string()),
        NewItem {
            topic: "chat".to_string(),
            attribute: Some("open".to_string()),
            source_id: None,
            parent_id: None,
            payload: None,
            secondary: None,
            status: 0,
        }
    );
    assert_eq!(
        session::recv("chat".to_string(), 4, "hi".to_string()),
        NewItem {
            topic: "chat".to_string(),
            attribute: Some("recv".to_string()),
            source_id: Some(4),
            parent_id: None,
            payload: Some("hi".to_string()),
            secondary: None,
            status: 0,
        }
    );
}

#[test]
fn session_egress_relays_each_send_once_and_in_order() {
    let mut log = Log::new();
    let sid = log.append(session::open("chat".to_string()), 0).unwrap();
    let mut egress = Egress::start("chat".to_string(), sid);
    assert_eq!(egress.cursor, sid);

    let send = |session: i64, text: &str| NewItem {
        topic: "chat".to_string(),
        attribute: Some("send".to_string()),
        source_id: Some(session),
        parent_id: None,
        payload: Some(text.to_string()),
        secondary: None,
        status: 0,
    };
    log.append(session::recv("chat".to_string(), sid, "in 1".to_string()), 0).unwrap();
    log.append(send(sid, "out 1"), 0).unwrap();
    log.append(send(sid + 50, "other session"), 0).unwrap();
    log.append(session::recv("chat".to_string(), sid, "in 2".to_string()), 0).unwrap();
    log.append(send(sid, "out 2"), 0).unwrap();
    let mut elsewhere = send(sid, "other topic");
    elsewhere.topic = "news".to_string();
    log.append(elsewhere, 0).unwrap();

    let mut written = Vec::new();
    let mut cursors = Vec::new();
    loop {
        let (item, back) = found(&egress.wait(), log);
        log = back;
        let Some(item) = item else { break };
        if let Some(line) = egress.deliver(&item) {
            written.push(line);
        }
        cursors.push(egress.cursor);
    }
    assert_eq!(written, vec!["out 1".to_string(), "out 2".to_string()]);
    assert_eq!(cursors, vec![3, 6]);
    assert_eq!(egress.topic, "chat");
    assert_eq!(egress.session_id, sid);
}

#[test]
fn session_egress_writes_nothing_for_other_roles() {
    let mut egress = Egress::start("chat".to_string(), 1);
    let item = Item {
        id: 2,
        topic: "chat".to_string(),
        attribute: Some("recv".to_string()),
        stamp: 0,
        source_id: Some(1),
        parent_id: None,
        payload: Some("in".to_string()),
        secondary: None,
        status: 0,
    };
    assert_eq!(egress.deliver(&item), None);
    assert_eq!(egress.cursor, 2);
    let item = Item { id: 3, attribute: None, ..item };
    assert_eq!(egress.deliver(&item), None);
    assert_eq!(egress.cursor, 3);
    let item = Item { id: 4, attribute: Some("send".to_string()), payload: None, ..item };
    assert_eq!(egress.deliver(&item), None);
    assert_eq!(egress.cursor, 4);
}

#[test]
fn transform_starts_at_zero_without_responses() {
    let mut log = Log::new();
    log.append(entry("in", "a"), 0).unwrap();
    log.append(entry("out", "no source"), 0).unwrap();
    let stage = Transform::resume(&log, "in".to_string(), "out".to_string());
    assert_eq!(stage.cursor, 0);
    assert_eq!(stage.topic, "in");
    assert_eq!(stage.response, "out");
}

#[test]
fn transform_resumes_at_the_highest_source() {
    let mut log = Log::new();
    for source in [Some(3), None, Some(8), Some(5)] {
        let mut response = entry("out", "r");
        response.source_id = source;
        log.append(response, 0).unwrap();
    }
    let mut elsewhere = entry("other", "r");
    elsewhere.source_id = Some(99);
    log.append(elsewhere, 0).unwrap();
    assert_eq!(Transform::resume(&log, "in".to_string(), "out".to_string()).cursor, 8);
    assert_eq!(Transform::resume(&log, "in".to_string(), "other".to_string()).cursor, 99);
    assert_eq!(Transform::resume(&log, "in".to_string(), "none".to_string()).cursor, 0);
}

#[test]
fn transform_response_names_its_input_twice() {
    let mut stage = Transform { topic: "in".to_string(), response: "out".to_string(), cursor: 0 };
    let input = Item {
        id: 6,
        topic: "in".to_string(),
        attribute: None,
        stamp: 0,
        source_id: Some(2),
        parent_id: Some(5),
        payload: Some("x".to_string()),
        secondary: None,
        status: 9,
    };
    let output = Output { stdout: b"y".to_vec(), stderr: b"z".to_vec(), code: Some(1) };
    assert_eq!(
        stage.complete(&input, output),
        Ok(NewItem {
            topic: "out".to_string(),
            attribute: Some("request".to_string()),
            source_id: Some(6),
            parent_id: Some(6),
            payload: Some("y".to_string()),
            secondary: Some("z".to_string()),
            status: 1,
        })
    );
    assert_eq!(stage.cursor, 6);
}

#[test]
fn transform_stays_where_it_is_on_failure() {
    let mut stage = Transform { topic: "in".to_string(), response: "out".to_string(), cursor: 4 };
    let input = Item {
        id: 6,
        topic: "in".to_string(),
        attribute: None,
        stamp: 0,
        source_id: None,
        parent_id: None,
        payload: None,
        secondary: None,
        status: 0,
    };
    let bad = Output { stdout: vec![0x80], stderr: Vec::new(), code: Some(0) };
    assert_eq!(stage.complete(&input, bad), Err(Error::Encoding));
    assert_eq!(stage.cursor, 4);
    let killed = Output { stdout: Vec::new(), stderr: Vec::new(), code: None };
    assert_eq!(stage.complete(&input, killed), Err(Error::Subprocess));
    assert_eq!(stage.cursor, 4);
}

#[test]
fn transform_does_not_reprocess_after_a_restart() {
    let mut log = Log::new();
    for n in 0..4 {
        log.append(entry("in", &format!("job {}", n)), 0).unwrap();
    }
    let mut stage = Transform::resume(&log, "in".to_string(), "out".to_string());
    let (processed, mut log) = drain(&mut stage, log, rev);
    assert_eq!(processed, vec![1, 2, 3, 4]);

    let mut again = Transform::resume(&log, "in".to_string(), "out".to_string());
    assert_eq!(again.cursor, 4);
    let (processed, back) = drain(&mut again, log, rev);
    log = back;
    assert_eq!(processed, Vec::<i64>::new());
    assert_eq!(log.len(), 8);

    log.append(entry("in", "late"), 0).unwrap();
    let mut third = Transform::resume(&log, "in".to_string(), "out".to_string());
    let (processed, log) = drain(&mut third, log, rev);
    assert_eq!(processed, vec![9]);
    assert_eq!(log.get(10).unwrap().payload, Some("etal".to_string()));
    assert_eq!(log.get(10).unwrap().source_id, Some(9));
}

#[test]
fn transform_answers_a_call() {
    let mut log = Log::new();
    let first = log.append(entry("in", "ping"), 0).unwrap();
    assert_eq!(first, 1);

    let mut stage = Transform::resume(&log, "in".to_string(), "out".to_string());
    let (_, back) = drain(&mut stage, log, cat);
    log = back;
    let response = log.get(2).unwrap();
    assert_eq!(response.topic, "out");
    assert_eq!(response.source_id, Some(1));
    assert_eq!(response.payload, Some("ping".to_string()));
    assert_eq!(response.status, 0);

    let id = log.append(call::request("in".to_string(), "ping".to_string()), 0).unwrap();
    let poll = call::await_reply("out".to_string(), id);
    let answer = Ok(log);
    assert_eq!(call::step(&poll, &answer, false), call::Outcome::Sleep(100));
    let (processed, log) = drain(&mut stage, answer.unwrap(), cat);
    assert_eq!(processed, vec![id]);
    match call::step(&poll, &Ok(log), false) {
        call::Outcome::Done(relay) => {
            assert_eq!(relay.stdout, Some("ping".to_string()));
            assert_eq!(relay.code, 0);
        }
        other => panic!("{:?}", other),
    }
}
