//! Queries: which items a scan of the log returns.

use vstd::prelude::*;
use crate::item::{copy_text, reference, text, Item, ItemView};

verus! {

/// The filters of a scan. A filter that is `None` lets every item pass.
#[derive(Debug, PartialEq, Eq)]
pub struct Query {
    /// Only items of this topic.
    pub topic: Option<String>,
    /// Only items with this attribute.
    pub attribute: Option<String>,
    /// Only items that answer this id.
    pub source_id: Option<i64>,
    /// Only items with an id above this one: the reader's cursor.
    pub min_id: i64,
    /// At most this many items, lowest ids first.
    pub limit: Option<usize>,
}

/// The mathematical value of a [`Query`].
pub struct QueryView {
    pub topic: Option<Seq<char>>,
    pub attribute: Option<Seq<char>>,
    pub source_id: Option<int>,
    pub min_id: int,
    pub limit: Option<nat>,
}

impl View for Query {
    type V = QueryView;

    open spec fn view(&self) -> QueryView {
        QueryView {
            topic: text(self.topic),
            attribute: text(self.attribute),
            source_id: reference(self.source_id),
            min_id: self.min_id as int,
            limit: match self.limit {
                Some(n) => Some(n as nat),
                None => None,
            },
        }
    }
}

impl QueryView {
    /// Whether `item` passes every filter and lies above the cursor.
    pub open spec fn selects(self, item: ItemView) -> bool {
        &&& item.id > self.min_id
        &&& (self.topic is Some ==> item.topic == self.topic->0)
        &&& (self.attribute is Some ==> item.attribute == self.attribute)
        &&& (self.source_id is Some ==> item.source_id == self.source_id)
    }

    /// The same filters, read from `cursor` on.
    pub open spec fn after(self, cursor: int) -> QueryView {
        QueryView { min_id: cursor, ..self }
    }

    /// The same filters, cut off after `n` items.
    pub open spec fn first_n(self, n: nat) -> QueryView {
        QueryView { limit: Some(n), ..self }
    }
}

impl Query {
    /// The query that every item above `min_id` passes.
    pub fn all(min_id: i64) -> (q: Query)
        ensures
            q@ == (QueryView {
                topic: None,
                attribute: None,
                source_id: None,
                min_id: min_id as int,
                limit: None,
            }),
    {
        Query { topic: None, attribute: None, source_id: None, min_id, limit: None }
    }

    /// The query for the items of `topic` above `min_id`.
    pub fn topic(topic: String, min_id: i64) -> (q: Query)
        ensures
            q@ == (QueryView {
                topic: Some(topic@),
                attribute: None,
                source_id: None,
                min_id: min_id as int,
                limit: None,
            }),
    {
        Query { topic: Some(topic), attribute: None, source_id: None, min_id, limit: None }
    }

    /// The same filters, read from `cursor` on.
    pub fn after(&self, cursor: i64) -> (q: Query)
        ensures
            q@ == self@.after(cursor as int),
    {
        Query {
            topic: copy_text(&self.topic),
            attribute: copy_text(&self.attribute),
            source_id: self.source_id,
            min_id: cursor,
            limit: self.limit,
        }
    }

    /// Whether `item` passes every filter and lies above the cursor.
    pub fn selects(&self, item: &Item) -> (yes: bool)
        ensures
            yes == self@.selects(item@),
    {
        if item.id <= self.min_id {
            return false;
        }
        let topic_ok = match &self.topic {
            Some(t) => *t == item.topic,
            None => true,
        };
        let attribute_ok = match &self.attribute {
            Some(a) => match &item.attribute {
                Some(b) => *a == *b,
                None => false,
            },
            None => true,
        };
        let source_ok = match self.source_id {
            Some(s) => match item.source_id {
                Some(t) => s == t,
                None => false,
            },
            None => true,
        };
        topic_ok && attribute_ok && source_ok
    }
}

} // verus!
