//! The correlation protocol: one request, one reply found by the id of the request.

use vstd::prelude::*;
use crate::error::Error;
use crate::item::{request_tag, ItemView, NewItem, NewItemView};
use crate::poll::{content, decide, Poll, PollView, Step, StepView, DEFAULT_INTERVAL_MS};
use crate::process::{relay, relay_of, Relay, RelayView};
use crate::query::{Query, QueryView};
use crate::store::{is_log, lemma_first_hit_is_lowest, Log};

verus! {

/// The request of a call: it answers nothing itself, and its id becomes the correlation id.
pub open spec fn request_of(topic: Seq<char>, payload: Seq<char>) -> NewItemView {
    NewItemView {
        topic,
        attribute: Some(request_tag()),
        source_id: None,
        parent_id: None,
        payload: Some(payload),
        secondary: None,
        status: 0,
    }
}

/// The item a caller appends to `topic` to ask for a reply to `payload`.
pub fn request(topic: String, payload: String) -> (new: NewItem)
    ensures
        new@ == request_of(topic@, payload@),
{
    NewItem {
        topic,
        attribute: Some("request".to_string()),
        source_id: None,
        parent_id: None,
        payload: Some(payload),
        secondary: None,
        status: 0,
    }
}

/// The replies to the request `correlation_id` on the topic `response`.
pub open spec fn replies_to(response: Seq<char>, correlation_id: int) -> QueryView {
    QueryView {
        topic: Some(response),
        attribute: None,
        source_id: Some(correlation_id),
        min_id: 0,
        limit: Some(1),
    }
}

/// The wait of a caller for the reply to its request: from the start of the log, for the
/// first item on `response` that answers `correlation_id`.
pub fn await_reply(response: String, correlation_id: i64) -> (poll: Poll)
    ensures
        poll@ == (PollView {
            query: replies_to(response@, correlation_id as int),
            cursor: 0,
            interval_ms: DEFAULT_INTERVAL_MS as nat,
        }),
{
    Poll::new(
        Query {
            topic: Some(response),
            attribute: None,
            source_id: Some(correlation_id),
            min_id: 0,
            limit: Some(1),
        },
        0,
    )
}

/// What a waiting caller does next.
#[derive(Debug, PartialEq, Eq)]
pub enum Outcome {
    /// The reply is here: relay it and end with its status.
    Done(Relay),
    /// No reply yet: sleep for so many milliseconds, then ask again.
    Sleep(u64),
    /// The store failed: give up.
    Abort(Error),
    /// The caller was told to stop: the call ends without a reply.
    Cancelled,
}

/// The mathematical value of an [`Outcome`].
pub enum OutcomeView {
    Done(RelayView),
    Sleep(nat),
    Abort(Error),
    Cancelled,
}

impl View for Outcome {
    type V = OutcomeView;

    open spec fn view(&self) -> OutcomeView {
        match self {
            Outcome::Done(r) => OutcomeView::Done(r@),
            Outcome::Sleep(ms) => OutcomeView::Sleep(*ms as nat),
            Outcome::Abort(e) => OutcomeView::Abort(*e),
            Outcome::Cancelled => OutcomeView::Cancelled,
        }
    }
}

/// What a caller makes of a decision of the poll engine: a found reply is relayed.
pub open spec fn outcome_of(step: StepView) -> OutcomeView {
    match step {
        StepView::Found(item) => OutcomeView::Done(relay_of(item)),
        StepView::Sleep(ms) => OutcomeView::Sleep(ms),
        StepView::Abort(e) => OutcomeView::Abort(e),
        StepView::Cancelled => OutcomeView::Cancelled,
    }
}

/// Decides what a caller that waits with `poll` does on one answer of the store, given
/// whether it was told to stop.
pub fn step(poll: &Poll, answer: &Result<Log, Error>, cancelled: bool) -> (next: Outcome)
    ensures
        next@ == outcome_of(decide(poll@, content(*answer), cancelled)),
{
    match poll.step(answer, cancelled) {
        Step::Found(item) => Outcome::Done(relay(&item)),
        Step::Sleep(ms) => Outcome::Sleep(ms),
        Step::Abort(e) => Outcome::Abort(e),
        Step::Cancelled => Outcome::Cancelled,
    }
}

/// Where several items on the response topic answer the same request, the call ends on
/// the one with the lowest id, and on no item that answers another request.
pub proof fn lemma_first_reply_wins(s: Seq<ItemView>, response: Seq<char>, correlation_id: int)
    requires
        is_log(s),
    ensures
        ({
            let poll = PollView {
                query: replies_to(response, correlation_id),
                cursor: 0,
                interval_ms: DEFAULT_INTERVAL_MS as nat,
            };
            match decide(poll, Ok(s), false) {
                StepView::Found(reply) => {
                    &&& s.contains(reply)
                    &&& reply.topic == response
                    &&& reply.source_id == Some(correlation_id)
                    &&& forall|other: ItemView| #[trigger]
                        s.contains(other) && other.topic == response && other.source_id == Some(
                            correlation_id,
                        ) ==> reply.id <= other.id
                },
                StepView::Sleep(_) => forall|other: ItemView| #[trigger]
                    s.contains(other) ==> !(other.topic == response && other.source_id == Some(
                        correlation_id,
                    )),
                StepView::Abort(_) => false,
                StepView::Cancelled => false,
            }
        }),
{
    let q = replies_to(response, correlation_id).after(0);
    lemma_first_hit_is_lowest(s, q);
    assert forall|other: ItemView| #[trigger] s.contains(other) implies other.id >= 1 by {
        let j = choose|j: int| 0 <= j < s.len() && s[j] == other;
        assert(s[j].id >= 1);
    }
}

} // verus!
