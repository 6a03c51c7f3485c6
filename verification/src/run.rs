//! Run and replay: feeding one stored item to an external command, and passing a stored
//! item on as if it were live.

use vstd::prelude::*;
use crate::error::Error;
use crate::item::{copy_text, request_tag, text, Item, ItemView, NewItem, NewItemView};
use crate::process::{captured_of, relay, relay_of, Output, Relay};

verus! {

/// What a run does with the item it loaded.
#[derive(Debug, PartialEq, Eq)]
pub enum Plan {
    /// The item records a failure: invoke nothing and exit with its status.
    Exit(i32),
    /// Invoke the command with this on its standard input.
    Invoke(Option<String>),
}

/// The mathematical value of a [`Plan`].
pub enum PlanView {
    Exit(int),
    Invoke(Option<Seq<char>>),
}

impl View for Plan {
    type V = PlanView;

    open spec fn view(&self) -> PlanView {
        match self {
            Plan::Exit(status) => PlanView::Exit(*status as int),
            Plan::Invoke(input) => PlanView::Invoke(text(*input)),
        }
    }
}

/// An item with a status other than zero ends the chain: its payload is no input.
pub open spec fn plan_of(item: ItemView) -> PlanView {
    if item.status != 0 {
        PlanView::Exit(item.status)
    } else {
        PlanView::Invoke(item.payload)
    }
}

/// Decides what a run does with `item`.
pub fn plan(item: &Item) -> (p: Plan)
    ensures
        p@ == plan_of(item@),
{
    if item.status != 0 {
        Plan::Exit(item.status)
    } else {
        Plan::Invoke(copy_text(&item.payload))
    }
}

/// The root of the causal chain that `item` belongs to: what it answers, or itself where
/// it answers nothing.
pub open spec fn root_of(item: ItemView) -> int {
    match item.source_id {
        Some(source) => source,
        None => item.id,
    }
}

/// The item that records what a command made of `item`: it keeps the root of the chain as
/// its source and names `item` as its parent.
pub open spec fn result_of(
    item: ItemView,
    topic: Seq<char>,
    payload: Seq<char>,
    secondary: Seq<char>,
    status: int,
) -> NewItemView {
    NewItemView {
        topic,
        attribute: Some(request_tag()),
        source_id: Some(root_of(item)),
        parent_id: Some(item.id),
        payload: Some(payload),
        secondary: Some(secondary),
        status,
    }
}

/// The item to append to `topic` once the command that was fed `item` has ended with
/// `output`.
pub fn result(item: &Item, topic: String, output: Output) -> (r: Result<NewItem, Error>)
    ensures
        match captured_of(output.stdout@, output.stderr@, output.code) {
            Ok((payload, secondary, status)) => r matches Ok(new) && new@ == result_of(
                item@,
                topic@,
                payload,
                secondary,
                status,
            ),
            Err(e) => r matches Err(x) && x == e,
        },
{
    let captured = match output.capture() {
        Ok(c) => c,
        Err(e) => {
            return Err(e);
        },
    };
    let root = match item.source_id {
        Some(source) => source,
        None => item.id,
    };
    Ok(
        NewItem {
            topic,
            attribute: Some("request".to_string()),
            source_id: Some(root),
            parent_id: Some(item.id),
            payload: Some(captured.payload),
            secondary: Some(captured.secondary),
            status: captured.status,
        },
    )
}

/// What a replay of `item` writes and exits with: the stored payload to the primary
/// output, the stored secondary data to the error output, the stored status verbatim.
pub fn replay(item: &Item) -> (r: Relay)
    ensures
        r@ == relay_of(item@),
{
    relay(item)
}

} // verus!
