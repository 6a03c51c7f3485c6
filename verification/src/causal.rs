//! Causal chains: what the source and the parent of an item refer to.
//!
//! The store takes any reference as it comes. The protocols only ever refer to items that
//! are in the log already, and a log that was filled by them alone holds no reference
//! that dangles or points forward.

use vstd::prelude::*;
use crate::call::request_of;
use crate::item::{ItemView, NewItem, NewItemView};
use crate::run::{result_of, root_of};
use crate::session::{open_of, recv_of};
use crate::store::Log;
use crate::transform::response_of;

verus! {

/// Whether `s` holds an item with the id `id`.
pub open spec fn has_id(s: Seq<ItemView>, id: int) -> bool {
    exists|j: int| 0 <= j < s.len() && (#[trigger] s[j]).id == id
}

/// Whether the reference `r` names an item of `s`, or names nothing.
pub open spec fn resolves(s: Seq<ItemView>, r: Option<int>) -> bool {
    r is Some ==> has_id(s, r->0)
}

/// Whether `new` refers only to items of `s`.
pub open spec fn admits(s: Seq<ItemView>, new: NewItemView) -> bool {
    resolves(s, new.source_id) && resolves(s, new.parent_id)
}

/// Whether every item of `s` refers only to items that stand before it.
pub open spec fn is_causal(s: Seq<ItemView>) -> bool {
    forall|i: int|
        0 <= i < s.len() ==> resolves(s.take(i), (#[trigger] s[i]).source_id) && resolves(
            s.take(i),
            s[i].parent_id,
        )
}

/// What a prefix of the log holds, the log holds.
pub proof fn lemma_resolves_later(s: Seq<ItemView>, i: int, r: Option<int>)
    requires
        0 <= i <= s.len(),
        resolves(s.take(i), r),
    ensures
        resolves(s, r),
{
    if r is Some {
        let j = choose|j: int| 0 <= j < s.take(i).len() && (#[trigger] s.take(i)[j]).id == r->0;
        assert(s[j].id == r->0);
    }
}

/// Appending an item that refers only to what is there keeps the log causal.
pub proof fn lemma_append_keeps_causal(s: Seq<ItemView>, new: NewItemView, id: int, stamp: nat)
    requires
        is_causal(s),
        admits(s, new),
    ensures
        is_causal(s.push(new.stored(id, stamp))),
{
    let after = s.push(new.stored(id, stamp));
    assert forall|i: int| 0 <= i < after.len() implies resolves(
        after.take(i),
        (#[trigger] after[i]).source_id,
    ) && resolves(after.take(i), after[i].parent_id) by {
        if i < s.len() {
            assert(after.take(i) =~= s.take(i));
            assert(after[i] == s[i]);
        } else {
            assert(after.take(i) =~= s);
        }
    }
}

/// A request and the opening of a session refer to nothing: any log admits them.
pub proof fn lemma_roots_are_admitted(s: Seq<ItemView>, topic: Seq<char>, payload: Seq<char>)
    ensures
        admits(s, request_of(topic, payload)),
        admits(s, open_of(topic)),
{
}

/// A line into a session refers to the item that opened the session.
pub proof fn lemma_recv_is_admitted(
    s: Seq<ItemView>,
    topic: Seq<char>,
    session_id: int,
    line: Seq<char>,
)
    requires
        has_id(s, session_id),
    ensures
        admits(s, recv_of(topic, session_id, line)),
{
}

/// The response of a transform stage refers to its input.
pub proof fn lemma_response_is_admitted(
    s: Seq<ItemView>,
    input: ItemView,
    topic: Seq<char>,
    payload: Seq<char>,
    secondary: Seq<char>,
    status: int,
)
    requires
        s.contains(input),
    ensures
        admits(s, response_of(input, topic, payload, secondary, status)),
{
    let j = choose|j: int| 0 <= j < s.len() && s[j] == input;
    assert(s[j].id == input.id);
}

/// The result of a run refers to the item it was fed and to the root of its chain, and
/// in a causal log both are there.
pub proof fn lemma_result_is_admitted(
    s: Seq<ItemView>,
    item: ItemView,
    topic: Seq<char>,
    payload: Seq<char>,
    secondary: Seq<char>,
    status: int,
)
    requires
        is_causal(s),
        s.contains(item),
    ensures
        admits(s, result_of(item, topic, payload, secondary, status)),
        has_id(s, root_of(item)),
{
    let j = choose|j: int| 0 <= j < s.len() && s[j] == item;
    assert(s[j].id == item.id);
    lemma_resolves_later(s, j, item.source_id);
}

/// Whether `new` refers only to items of `log`.
pub fn admitted(log: &Log, new: &NewItem) -> (yes: bool)
    ensures
        yes == admits(log@, new@),
{
    let source_ok = match new.source_id {
        Some(id) => known(log, id),
        None => true,
    };
    let parent_ok = match new.parent_id {
        Some(id) => known(log, id),
        None => true,
    };
    source_ok && parent_ok
}

/// Whether `log` holds an item with the id `id`.
pub fn known(log: &Log, id: i64) -> (yes: bool)
    ensures
        yes == has_id(log@, id as int),
{
    match log.get(id) {
        Ok(item) => {
            proof {
                let j = choose|j: int| 0 <= j < log@.len() && log@[j] == item@;
                assert(log@[j].id == id);
            }
            true
        },
        Err(_) => false,
    }
}

} // verus!
