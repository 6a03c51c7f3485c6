//! The transform loop: a pipeline stage that answers every item of one topic with what an
//! external command makes of it, on another topic.
//!
//! The stage keeps no state but its cursor, and finds the cursor again in the log: it is
//! the highest id that a response names as its source.

use vstd::prelude::*;
use crate::error::Error;
use crate::item::{reference, request_tag, Item, ItemView, NewItem, NewItemView};
use crate::poll::{Poll, PollView, DEFAULT_INTERVAL_MS};
use crate::process::{captured_of, Output};
use crate::query::{Query, QueryView};
use crate::store::{views, Log};

verus! {

/// The highest id that an item of `s` on `topic` names as its source; `None` where no
/// item on `topic` names one.
pub open spec fn highest_source(s: Seq<ItemView>, topic: Seq<char>) -> Option<int>
    decreases s.len(),
{
    if s.len() == 0 {
        None
    } else {
        let earlier = highest_source(s.drop_last(), topic);
        let item = s.last();
        if item.topic == topic && item.source_id is Some {
            match earlier {
                Some(m) => if m >= item.source_id->0 {
                    Some(m)
                } else {
                    item.source_id
                },
                None => item.source_id,
            }
        } else {
            earlier
        }
    }
}

/// Where a stage that answers on `topic` takes up its work: at the highest source that a
/// response names, and at zero where there is no response yet.
pub open spec fn resume_cursor(s: Seq<ItemView>, topic: Seq<char>) -> int {
    match highest_source(s, topic) {
        Some(m) => m,
        None => 0,
    }
}

/// The inputs of a stage that reads `topic`.
pub open spec fn inputs_of(topic: Seq<char>) -> QueryView {
    QueryView { topic: Some(topic), attribute: None, source_id: None, min_id: 0, limit: Some(1) }
}

/// The response to `input`: it names the input as its source and as its parent.
pub open spec fn response_of(
    input: ItemView,
    topic: Seq<char>,
    payload: Seq<char>,
    secondary: Seq<char>,
    status: int,
) -> NewItemView {
    NewItemView {
        topic,
        attribute: Some(request_tag()),
        source_id: Some(input.id),
        parent_id: Some(input.id),
        payload: Some(payload),
        secondary: Some(secondary),
        status,
    }
}

/// `highest_source` is a source that a response names, and no response names a higher one.
pub proof fn lemma_highest_source(s: Seq<ItemView>, topic: Seq<char>)
    ensures
        match highest_source(s, topic) {
            Some(m) => exists|i: int|
                0 <= i < s.len() && (#[trigger] s[i]).topic == topic && s[i].source_id == Some(m),
            None => forall|i: int|
                0 <= i < s.len() && (#[trigger] s[i]).topic == topic ==> s[i].source_id is None,
        },
        forall|i: int|
            0 <= i < s.len() && (#[trigger] s[i]).topic == topic && s[i].source_id is Some
                ==> highest_source(s, topic) is Some && s[i].source_id->0 <= highest_source(
                s,
                topic,
            )->0,
    decreases s.len(),
{
    if s.len() > 0 {
        let front = s.drop_last();
        lemma_highest_source(front, topic);
        assert forall|i: int|
            0 <= i < s.len() && (#[trigger] s[i]).topic == topic && s[i].source_id is Some implies highest_source(
            s,
            topic,
        ) is Some && s[i].source_id->0 <= highest_source(s, topic)->0 by {
            if i < front.len() {
                assert(front[i] == s[i]);
            }
        }
        match highest_source(s, topic) {
            Some(m) => {
                if highest_source(front, topic) == Some(m) {
                    let i = choose|i: int|
                        0 <= i < front.len() && (#[trigger] front[i]).topic == topic
                            && front[i].source_id == Some(m);
                    assert(s[i] == front[i]);
                } else {
                    assert(s[s.len() - 1].source_id == Some(m));
                }
            },
            None => {
                assert forall|i: int|
                    0 <= i < s.len() && (#[trigger] s[i]).topic == topic implies s[i].source_id is None by {
                    if i < front.len() {
                        assert(front[i] == s[i]);
                    }
                }
            },
        }
    }
}

/// A stage that is started again does not process an input twice: whatever it reads from
/// its recomputed cursor on has an id above every source that a response names, so no
/// response answers it yet.
pub proof fn lemma_resume_skips_answered(
    s: Seq<ItemView>,
    topic: Seq<char>,
    response: Seq<char>,
    input: ItemView,
)
    requires
        inputs_of(topic).after(resume_cursor(s, response)).selects(input),
    ensures
        forall|i: int|
            0 <= i < s.len() && (#[trigger] s[i]).topic == response ==> s[i].source_id != Some(
                input.id,
            ),
{
    lemma_highest_source(s, response);
}

/// Once the response to an input at or above the cursor is in the log, the cursor that a
/// restart computes is the id of that input.
pub proof fn lemma_response_moves_cursor(s: Seq<ItemView>, response: ItemView)
    requires
        response.source_id is Some,
        response.source_id->0 >= resume_cursor(s, response.topic),
    ensures
        resume_cursor(s.push(response), response.topic) == response.source_id->0,
{
    assert(s.push(response).drop_last() =~= s);
}

/// A stage that is started again stands where the running stage stood: while the cursor
/// of a stage is the one that a restart computes, answering the next input keeps it so.
pub proof fn lemma_restart_agrees(
    s: Seq<ItemView>,
    stage: TransformView,
    input: ItemView,
    payload: Seq<char>,
    secondary: Seq<char>,
    status: int,
    id: int,
    stamp: nat,
)
    requires
        stage.cursor == resume_cursor(s, stage.response),
        stage.wait().request().selects(input),
    ensures
        resume_cursor(
            s.push(response_of(input, stage.response, payload, secondary, status).stored(id, stamp)),
            stage.response,
        ) == input.id,
{
    lemma_response_moves_cursor(
        s,
        response_of(input, stage.response, payload, secondary, status).stored(id, stamp),
    );
}

/// A pipeline stage between two topics, at its cursor.
#[derive(Debug, PartialEq, Eq)]
pub struct Transform {
    /// The topic the stage reads.
    pub topic: String,
    /// The topic the stage answers on.
    pub response: String,
    /// The id of the last input that was answered.
    pub cursor: i64,
}

/// The mathematical value of a [`Transform`].
pub struct TransformView {
    pub topic: Seq<char>,
    pub response: Seq<char>,
    pub cursor: int,
}

impl View for Transform {
    type V = TransformView;

    open spec fn view(&self) -> TransformView {
        TransformView { topic: self.topic@, response: self.response@, cursor: self.cursor as int }
    }
}

impl TransformView {
    /// The wait for the next input.
    pub open spec fn wait(self) -> PollView {
        PollView {
            query: inputs_of(self.topic),
            cursor: self.cursor,
            interval_ms: DEFAULT_INTERVAL_MS as nat,
        }
    }
}

/// The highest source among the responses in `items`, as `highest_source` states it.
fn highest_in(items: &Vec<Item>, topic: &String) -> (best: Option<i64>)
    ensures
        reference(best) == highest_source(views(items@), topic@),
{
    let ghost s = views(items@);
    let mut best: Option<i64> = None;
    let mut i: usize = 0;
    assert(s.take(0) =~= Seq::<ItemView>::empty());
    while i < items.len()
        invariant
            i <= items.len(),
            s == views(items@),
            reference(best) == highest_source(s.take(i as int), topic@),
        decreases items.len() - i,
    {
        proof {
            assert(s.take(i + 1).drop_last() =~= s.take(i as int));
            assert(s.take(i + 1).last() == items@[i as int]@);
        }
        let item = &items[i];
        if item.topic == *topic {
            match item.source_id {
                Some(source) => {
                    best = match best {
                        Some(m) => if m >= source {
                            Some(m)
                        } else {
                            Some(source)
                        },
                        None => Some(source),
                    };
                },
                None => {},
            }
        }
        i = i + 1;
    }
    assert(s.take(i as int) =~= s);
    best
}

impl Transform {
    /// The stage between `topic` and `response` as it takes up its work on `log`: at the
    /// highest source that a response names, so that no answered input is read again.
    pub fn resume(log: &Log, topic: String, response: String) -> (stage: Transform)
        ensures
            stage@ == (TransformView {
                topic: topic@,
                response: response@,
                cursor: resume_cursor(log@, response@),
            }),
    {
        let cursor = match highest_in(log.items(), &response) {
            Some(m) => m,
            None => 0,
        };
        Transform { topic, response, cursor }
    }

    /// The wait for the next input: the first item on the input topic above the cursor.
    pub fn wait(&self) -> (poll: Poll)
        ensures
            poll@ == self@.wait(),
    {
        Poll::new(
            Query {
                topic: Some(self.topic.clone()),
                attribute: None,
                source_id: None,
                min_id: 0,
                limit: Some(1),
            },
            self.cursor,
        )
    }

    /// The response to append once the command that was fed `input` has ended with
    /// `output`; the cursor then stands on `input`. Where the output cannot be stored, the
    /// stage stays where it is and the failure ends the loop.
    pub fn complete(&mut self, input: &Item, output: Output) -> (r: Result<NewItem, Error>)
        ensures
            match captured_of(output.stdout@, output.stderr@, output.code) {
                Ok((payload, secondary, status)) => {
                    &&& r matches Ok(new)
                    &&& new@ == response_of(input@, old(self)@.response, payload, secondary, status)
                    &&& final(self)@ == (TransformView { cursor: input@.id, ..old(self)@ })
                },
                Err(e) => r matches Err(x) && x == e && final(self)@ == old(self)@,
            },
    {
        let captured = match output.capture() {
            Ok(c) => c,
            Err(e) => {
                return Err(e);
            },
        };
        self.cursor = input.id;
        Ok(
            NewItem {
                topic: self.response.clone(),
                attribute: Some("request".to_string()),
                source_id: Some(input.id),
                parent_id: Some(input.id),
                payload: Some(captured.payload),
                secondary: Some(captured.secondary),
                status: captured.status,
            },
        )
    }
}

} // verus!
