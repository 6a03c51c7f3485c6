//! The duplex session: lines in and lines out, two directions that meet only in the log.
//!
//! A session is the item that opened it. The ingress direction appends what it reads as
//! `recv` items that answer the session; the egress direction waits for `send` items that
//! answer the session and passes their payload on, each once, in the order of their ids.

use vstd::prelude::*;
use crate::item::{
    copy_text, open_tag, recv_tag, send_tag, text, Item, ItemView, NewItem, NewItemView,
};
use crate::poll::{decide, Poll, PollView, StepView, DEFAULT_INTERVAL_MS};
use crate::query::{Query, QueryView};
use crate::store::{is_log, lemma_first_hit_is_lowest};

verus! {

/// The item that opens a session on `topic`.
pub open spec fn open_of(topic: Seq<char>) -> NewItemView {
    NewItemView {
        topic,
        attribute: Some(open_tag()),
        source_id: None,
        parent_id: None,
        payload: None,
        secondary: None,
        status: 0,
    }
}

/// The item to append to open a session on `topic`. The id that the store gives it is the
/// id of the session.
pub fn open(topic: String) -> (new: NewItem)
    ensures
        new@ == open_of(topic@),
{
    NewItem {
        topic,
        attribute: Some("open".to_string()),
        source_id: None,
        parent_id: None,
        payload: None,
        secondary: None,
        status: 0,
    }
}

/// The item that carries `line` into the session `session_id`.
pub open spec fn recv_of(topic: Seq<char>, session_id: int, line: Seq<char>) -> NewItemView {
    NewItemView {
        topic,
        attribute: Some(recv_tag()),
        source_id: Some(session_id),
        parent_id: None,
        payload: Some(line),
        secondary: None,
        status: 0,
    }
}

/// The item that the ingress direction appends for one line of its input.
pub fn recv(topic: String, session_id: i64, line: String) -> (new: NewItem)
    ensures
        new@ == recv_of(topic@, session_id as int, line@),
{
    NewItem {
        topic,
        attribute: Some("recv".to_string()),
        source_id: Some(session_id),
        parent_id: None,
        payload: Some(line),
        secondary: None,
        status: 0,
    }
}

/// The items that go out of the session `session_id` on `topic`.
pub open spec fn sends_of(topic: Seq<char>, session_id: int) -> QueryView {
    QueryView {
        topic: Some(topic),
        attribute: Some(send_tag()),
        source_id: Some(session_id),
        min_id: session_id,
        limit: Some(1),
    }
}

/// The egress direction of a session: what it listens to, and how far it has come.
#[derive(Debug, PartialEq, Eq)]
pub struct Egress {
    pub topic: String,
    pub session_id: i64,
    /// The id of the last item passed on; the id of the session before the first.
    pub cursor: i64,
}

/// The mathematical value of an [`Egress`].
pub struct EgressView {
    pub topic: Seq<char>,
    pub session_id: int,
    pub cursor: int,
}

impl View for Egress {
    type V = EgressView;

    open spec fn view(&self) -> EgressView {
        EgressView {
            topic: self.topic@,
            session_id: self.session_id as int,
            cursor: self.cursor as int,
        }
    }
}

impl EgressView {
    /// The wait for the next item to pass on.
    pub open spec fn wait(self) -> PollView {
        PollView {
            query: sends_of(self.topic, self.session_id),
            cursor: self.cursor,
            interval_ms: DEFAULT_INTERVAL_MS as nat,
        }
    }
}

/// What is written for `item`: the payload of a `send` item, and nothing for any other.
pub open spec fn line_of(item: ItemView) -> Option<Seq<char>> {
    if item.attribute == Some(send_tag()) {
        item.payload
    } else {
        None
    }
}

impl Egress {
    /// The egress direction of the session that the item `session_id` opened on `topic`,
    /// before it has passed anything on.
    pub fn start(topic: String, session_id: i64) -> (egress: Egress)
        ensures
            egress@ == (EgressView {
                topic: topic@,
                session_id: session_id as int,
                cursor: session_id as int,
            }),
    {
        Egress { topic, session_id, cursor: session_id }
    }

    /// The wait for the next item to pass on: the first `send` item of the session above
    /// the cursor.
    pub fn wait(&self) -> (poll: Poll)
        ensures
            poll@ == self@.wait(),
    {
        Poll::new(
            Query {
                topic: Some(self.topic.clone()),
                attribute: Some("send".to_string()),
                source_id: Some(self.session_id),
                min_id: self.session_id,
                limit: Some(1),
            },
            self.cursor,
        )
    }

    /// Takes note that `item` was found: the cursor moves to it, and what comes back is
    /// the line to write, if there is one.
    pub fn deliver(&mut self, item: &Item) -> (line: Option<String>)
        ensures
            final(self)@ == (EgressView { cursor: item@.id, ..old(self)@ }),
            text(line) == line_of(item@),
    {
        self.cursor = item.id;
        let is_send = match &item.attribute {
            Some(a) => {
                let send = "send".to_string();
                *a == send
            },
            None => false,
        };
        if is_send {
            copy_text(&item.payload)
        } else {
            None
        }
    }
}

/// The egress direction moves forward only. What it finds is a `send` item of its own
/// session above its cursor, the lowest such; and once it has taken note of that item, it
/// never finds it, or one below it, again.
pub proof fn lemma_egress_moves_forward(s: Seq<ItemView>, egress: EgressView)
    requires
        is_log(s),
    ensures
        match decide(egress.wait(), Ok(s), false) {
            StepView::Found(item) => {
                &&& item.id > egress.cursor
                &&& item.topic == egress.topic
                &&& item.source_id == Some(egress.session_id)
                &&& line_of(item) == item.payload
                &&& forall|t: Seq<ItemView>|
                    is_log(t) ==> match #[trigger] decide(
                        (EgressView { cursor: item.id, ..egress }).wait(),
                        Ok(t),
                        false,
                    ) {
                        StepView::Found(next) => next.id > item.id,
                        _ => true,
                    }
            },
            _ => true,
        },
{
    lemma_first_hit_is_lowest(s, egress.wait().request());
    match decide(egress.wait(), Ok(s), false) {
        StepView::Found(item) => {
            let moved = EgressView { cursor: item.id, ..egress };
            assert forall|t: Seq<ItemView>| is_log(t) implies match #[trigger] decide(
                moved.wait(),
                Ok(t),
                false,
            ) {
                StepView::Found(next) => next.id > item.id,
                _ => true,
            } by {
                lemma_first_hit_is_lowest(t, moved.wait().request());
            }
        },
        _ => {},
    }
}

} // verus!
