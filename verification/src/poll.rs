//! The poll engine: waiting for new data by asking again.
//!
//! The engine itself neither sleeps nor reads. It is handed what the store answered to
//! one execution of the query, and whether the caller has been told to stop, and decides
//! what the caller does next: deliver an item, sleep and ask again, or give up.

use vstd::prelude::*;
use crate::error::Error;
use crate::item::{Item, ItemView};
use crate::query::{Query, QueryView};
use crate::store::{first_hit, is_log, lemma_first_hit_is_lowest, Log};

verus! {

/// The time between two executions of the query where the caller names none, in
/// milliseconds.
pub const DEFAULT_INTERVAL_MS: u64 = 100;

/// A wait for the first item that a query selects above a cursor.
#[derive(Debug, PartialEq, Eq)]
pub struct Poll {
    /// The filters of the wait; its own cursor and limit are not used.
    pub query: Query,
    /// The last id the reader has seen.
    pub cursor: i64,
    /// How long to sleep after an empty answer, in milliseconds.
    pub interval_ms: u64,
}

/// The mathematical value of a [`Poll`].
pub struct PollView {
    pub query: QueryView,
    pub cursor: int,
    pub interval_ms: nat,
}

impl View for Poll {
    type V = PollView;

    open spec fn view(&self) -> PollView {
        PollView {
            query: self.query@,
            cursor: self.cursor as int,
            interval_ms: self.interval_ms as nat,
        }
    }
}

impl PollView {
    /// The query that one execution runs: the filters of the wait, read from the cursor on.
    pub open spec fn request(self) -> QueryView {
        self.query.after(self.cursor)
    }
}

/// What the caller of the engine does next.
#[derive(Debug, PartialEq, Eq)]
pub enum Step {
    /// The wait is over: this is the item.
    Found(Item),
    /// Nothing matches yet: sleep for so many milliseconds, then run the query again.
    Sleep(u64),
    /// The store failed: give up with this error, without another try.
    Abort(Error),
    /// The caller was told to stop: the wait ends without an item.
    Cancelled,
}

/// What the engine decides on an answer of the store. A caller that was told to stop
/// stops, whatever the answer. Otherwise an answer without a match, and the answer
/// `NotFound`, lead to a sleep; any other failure ends the wait.
pub open spec fn decide(
    poll: PollView,
    answer: Result<Seq<ItemView>, Error>,
    cancelled: bool,
) -> StepView {
    if cancelled {
        StepView::Cancelled
    } else {
        match answer {
            Ok(s) => match first_hit(s, poll.request()) {
                Some(item) => StepView::Found(item),
                None => StepView::Sleep(poll.interval_ms),
            },
            Err(Error::NotFound) => StepView::Sleep(poll.interval_ms),
            Err(e) => StepView::Abort(e),
        }
    }
}

/// The mathematical value of a [`Step`].
pub enum StepView {
    Found(ItemView),
    Sleep(nat),
    Abort(Error),
    Cancelled,
}

impl View for Step {
    type V = StepView;

    open spec fn view(&self) -> StepView {
        match self {
            Step::Found(item) => StepView::Found(item@),
            Step::Sleep(ms) => StepView::Sleep(*ms as nat),
            Step::Abort(e) => StepView::Abort(*e),
            Step::Cancelled => StepView::Cancelled,
        }
    }
}

/// What a store hands back for one execution: the log as it stands, by its content.
pub open spec fn content(answer: Result<Log, Error>) -> Result<Seq<ItemView>, Error> {
    match answer {
        Ok(log) => Ok(log@),
        Err(e) => Err(e),
    }
}

impl Poll {
    /// A wait for what `query` selects above `cursor`, asking every 100 milliseconds.
    pub fn new(query: Query, cursor: i64) -> (poll: Poll)
        ensures
            poll@ == (PollView {
                query: query@,
                cursor: cursor as int,
                interval_ms: DEFAULT_INTERVAL_MS as nat,
            }),
    {
        Poll { query, cursor, interval_ms: DEFAULT_INTERVAL_MS }
    }

    /// The same wait, asking every `interval_ms` milliseconds.
    pub fn every(self, interval_ms: u64) -> (poll: Poll)
        ensures
            poll@ == (PollView { interval_ms: interval_ms as nat, ..self@ }),
    {
        Poll { query: self.query, cursor: self.cursor, interval_ms }
    }

    /// The query that one execution runs.
    pub fn request(&self) -> (q: Query)
        ensures
            q@ == self@.request(),
    {
        self.query.after(self.cursor)
    }

    /// Decides on one answer of the store, given whether the caller was told to stop.
    /// `Found` carries the selected item with the lowest id above the cursor; it is never
    /// at or below the cursor.
    pub fn step(&self, answer: &Result<Log, Error>, cancelled: bool) -> (next: Step)
        ensures
            next@ == decide(self@, content(*answer), cancelled),
            next matches Step::Found(item) ==> item@.id > self.cursor,
    {
        if cancelled {
            return Step::Cancelled;
        }
        match answer {
            Ok(log) => {
                let q = self.request();
                match log.first(&q) {
                    Some(item) => {
                        proof {
                            lemma_first_hit_is_lowest(log@, q@);
                        }
                        Step::Found(item.clone())
                    },
                    None => Step::Sleep(self.interval_ms),
                }
            },
            Err(e) => match e {
                Error::NotFound => Step::Sleep(self.interval_ms),
                _ => Step::Abort(*e),
            },
        }
    }
}

/// A wait never ends on an item at or below its cursor, and once the log holds an item
/// that the query selects above the cursor, a caller that was not told to stop is handed
/// the one with the lowest id.
pub proof fn lemma_poll_delivers_lowest(poll: PollView, s: Seq<ItemView>)
    requires
        is_log(s),
    ensures
        match decide(poll, Ok(s), false) {
            StepView::Found(item) => {
                &&& s.contains(item)
                &&& item.id > poll.cursor
                &&& poll.query.after(poll.cursor).selects(item)
                &&& forall|other: ItemView| #[trigger]
                    s.contains(other) && poll.query.after(poll.cursor).selects(other) ==> item.id
                        <= other.id
            },
            StepView::Sleep(ms) => {
                &&& ms == poll.interval_ms
                &&& forall|other: ItemView| #[trigger]
                    s.contains(other) ==> !poll.query.after(poll.cursor).selects(other)
            },
            StepView::Abort(_) => false,
            StepView::Cancelled => false,
        },
{
    lemma_first_hit_is_lowest(s, poll.request());
}

} // verus!
