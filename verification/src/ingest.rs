//! Putting data from outside into the log: plain text, and the events of a stream.

use vstd::prelude::*;
use crate::error::Error;
use crate::item::{reference, text, ItemView, NewItem, NewItemView};
use crate::sse::{Event, EventView};
use crate::store::{views, Log};
use crate::text::{trim, trimmed};

verus! {

/// The item that holds `data` as it came in: without the white space around it.
pub open spec fn put_of(
    topic: Seq<char>,
    attribute: Option<Seq<char>>,
    source_id: Option<int>,
    parent_id: Option<int>,
    data: Seq<char>,
) -> NewItemView {
    NewItemView {
        topic,
        attribute,
        source_id,
        parent_id,
        payload: Some(trimmed(data)),
        secondary: None,
        status: 0,
    }
}

/// The item to append for one piece of data that came in.
pub fn put_one(
    source_id: Option<i64>,
    parent_id: Option<i64>,
    topic: String,
    attribute: Option<String>,
    data: &str,
) -> (new: NewItem)
    ensures
        new@ == put_of(
            topic@,
            text(attribute),
            reference(source_id),
            reference(parent_id),
            data@,
        ),
{
    NewItem {
        topic,
        attribute,
        source_id,
        parent_id,
        payload: Some(trim(data)),
        secondary: None,
        status: 0,
    }
}

/// The item that holds one event of the stream `source`: the topic is the name of the
/// stream, and the id that the stream gave the event is kept as the source of the item.
pub open spec fn event_of(source: Seq<char>, event: EventView) -> NewItemView {
    put_of(
        source,
        None,
        match event.id {
            Some(id) => Some(id as int),
            None => None,
        },
        None,
        event.data,
    )
}

/// The item to append for one event read from the stream `source`.
pub fn put_event(source: String, event: &Event) -> (new: NewItem)
    ensures
        new@ == event_of(source@, event@),
{
    put_one(event.id, None, source, None, event.data.as_str())
}

/// The last item of `s` on `topic`.
pub open spec fn latest_on(s: Seq<ItemView>, topic: Seq<char>) -> Option<ItemView>
    decreases s.len(),
{
    if s.len() == 0 {
        None
    } else if s.last().topic == topic {
        Some(s.last())
    } else {
        latest_on(s.drop_last(), topic)
    }
}

/// The id up to which the stream `topic` has been put into the log: the source of the
/// latest item on the topic, and zero where the topic is empty. A latest item that names
/// no source has none to hand out.
pub open spec fn last_event_id(s: Seq<ItemView>, topic: Seq<char>) -> Result<int, Error> {
    match latest_on(s, topic) {
        None => Ok(0),
        Some(item) => match item.source_id {
            Some(id) => Ok(id),
            None => Err(Error::NotFound),
        },
    }
}

/// The id to ask the stream `topic` to go on from.
pub fn last_id(log: &Log, topic: &String) -> (r: Result<i64, Error>)
    ensures
        match last_event_id(log@, topic@) {
            Ok(id) => r matches Ok(x) && x == id,
            Err(e) => r matches Err(x) && x == e,
        },
{
    let items = log.items();
    let ghost s = views(items@);
    let mut i: usize = items.len();
    assert(s.take(i as int) =~= s);
    while i > 0
        invariant
            i <= items.len(),
            s == views(items@),
            s == log@,
            latest_on(s, topic@) == latest_on(s.take(i as int), topic@),
        decreases i,
    {
        let item = &items[i - 1];
        proof {
            assert(s.take(i as int).last() == items@[i - 1]@);
            assert(s.take(i as int).drop_last() =~= s.take(i - 1));
        }
        if item.topic == *topic {
            return match item.source_id {
                Some(id) => Ok(id),
                None => Err(Error::NotFound),
            };
        }
        i = i - 1;
    }
    Ok(0)
}

} // verus!
