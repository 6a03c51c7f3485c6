//! The item: the one record kind the log holds.

use vstd::prelude::*;

verus! {

/// What an optional text field holds, as a sequence of characters.
pub open spec fn text(field: Option<String>) -> Option<Seq<char>> {
    match field {
        Some(s) => Some(s@),
        None => None,
    }
}

/// What an optional id field holds, as a mathematical integer.
pub open spec fn reference(field: Option<i64>) -> Option<int> {
    match field {
        Some(id) => Some(id as int),
        None => None,
    }
}

/// One immutable record of the log.
#[derive(Debug, PartialEq, Eq)]
pub struct Item {
    /// Assigned by the store at append time; strictly increasing over all topics.
    pub id: i64,
    /// The partition the item belongs to.
    pub topic: String,
    /// The role of the item within its topic.
    pub attribute: Option<String>,
    /// Creation time in milliseconds since the epoch.
    pub stamp: u128,
    /// The item this one answers, possibly several hops back.
    pub source_id: Option<i64>,
    /// The item that directly triggered this one.
    pub parent_id: Option<i64>,
    /// Primary data, such as captured standard output.
    pub payload: Option<String>,
    /// Secondary data, such as captured standard error.
    pub secondary: Option<String>,
    /// Result code of whatever produced the item; zero is success.
    pub status: i32,
}

/// The mathematical value of an [`Item`].
pub struct ItemView {
    pub id: int,
    pub topic: Seq<char>,
    pub attribute: Option<Seq<char>>,
    pub stamp: nat,
    pub source_id: Option<int>,
    pub parent_id: Option<int>,
    pub payload: Option<Seq<char>>,
    pub secondary: Option<Seq<char>>,
    pub status: int,
}

impl View for Item {
    type V = ItemView;

    open spec fn view(&self) -> ItemView {
        ItemView {
            id: self.id as int,
            topic: self.topic@,
            attribute: text(self.attribute),
            stamp: self.stamp as nat,
            source_id: reference(self.source_id),
            parent_id: reference(self.parent_id),
            payload: text(self.payload),
            secondary: text(self.secondary),
            status: self.status as int,
        }
    }
}

/// An item as a writer hands it to the store: everything but the id and the stamp.
#[derive(Debug, PartialEq, Eq)]
pub struct NewItem {
    pub topic: String,
    pub attribute: Option<String>,
    pub source_id: Option<i64>,
    pub parent_id: Option<i64>,
    pub payload: Option<String>,
    pub secondary: Option<String>,
    pub status: i32,
}

/// The mathematical value of a [`NewItem`].
pub struct NewItemView {
    pub topic: Seq<char>,
    pub attribute: Option<Seq<char>>,
    pub source_id: Option<int>,
    pub parent_id: Option<int>,
    pub payload: Option<Seq<char>>,
    pub secondary: Option<Seq<char>>,
    pub status: int,
}

impl View for NewItem {
    type V = NewItemView;

    open spec fn view(&self) -> NewItemView {
        NewItemView {
            topic: self.topic@,
            attribute: text(self.attribute),
            source_id: reference(self.source_id),
            parent_id: reference(self.parent_id),
            payload: text(self.payload),
            secondary: text(self.secondary),
            status: self.status as int,
        }
    }
}

impl NewItemView {
    /// The item that the store makes of this request under `id` at time `stamp`.
    pub open spec fn stored(self, id: int, stamp: nat) -> ItemView {
        ItemView {
            id,
            topic: self.topic,
            attribute: self.attribute,
            stamp,
            source_id: self.source_id,
            parent_id: self.parent_id,
            payload: self.payload,
            secondary: self.secondary,
            status: self.status,
        }
    }
}

/// A copy of an optional text field.
pub fn copy_text(field: &Option<String>) -> (copy: Option<String>)
    ensures
        text(copy) == text(*field),
{
    match field {
        Some(s) => Some(s.clone()),
        None => None,
    }
}

impl Clone for Item {
    fn clone(&self) -> (copy: Item)
        ensures
            copy@ == self@,
    {
        Item {
            id: self.id,
            topic: self.topic.clone(),
            attribute: copy_text(&self.attribute),
            stamp: self.stamp,
            source_id: self.source_id,
            parent_id: self.parent_id,
            payload: copy_text(&self.payload),
            secondary: copy_text(&self.secondary),
            status: self.status,
        }
    }
}

impl Clone for NewItem {
    fn clone(&self) -> (copy: NewItem)
        ensures
            copy@ == self@,
    {
        NewItem {
            topic: self.topic.clone(),
            attribute: copy_text(&self.attribute),
            source_id: self.source_id,
            parent_id: self.parent_id,
            payload: copy_text(&self.payload),
            secondary: copy_text(&self.secondary),
            status: self.status,
        }
    }
}

/// The role of the item that opens a duplex session.
pub open spec fn open_tag() -> Seq<char> {
    "open"@
}

/// The role of an item that carries a line into a session.
pub open spec fn recv_tag() -> Seq<char> {
    "recv"@
}

/// The role of an item that carries a line out of a session.
pub open spec fn send_tag() -> Seq<char> {
    "send"@
}

/// The role of an item that asks for a reply.
pub open spec fn request_tag() -> Seq<char> {
    "request"@
}

} // verus!
