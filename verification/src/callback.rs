//! Progress events of the download engine and the slot that holds the sender
//! they are forwarded to.
use vstd::prelude::*;

verus! {

/// A JSON value (`serde_json::Value`), carried through unexamined.
#[verifier::external_type_specification]
#[verifier::external_body]
pub struct ExJsonValue(serde_json::Value);

/// The kind of a progress event.
#[derive(Debug, Clone, Copy, PartialEq, Eq, Structural)]
pub enum EventType {
    Start,
    StartOne,
    Update,
    End,
    EndOne,
    Msg,
    Error,
}

/// A progress event of the download engine.
#[derive(Debug)]
pub struct Event {
    pub event_type: EventType,
    pub name: String,
    pub show_name: String,
    pub id: String,
}

/// A raw event from the engine's callback, with its JSON payload.
#[derive(Debug)]
pub struct CallbackEvent {
    pub event: Event,
    pub data: serde_json::Value,
}

/// The slot that holds the sender progress events are forwarded to.
pub struct SenderSlot<T> {
    sender: Option<T>,
}

impl<T> SenderSlot<T> {
    /// The sender currently registered, if any.
    pub closed spec fn registered(&self) -> Option<T> {
        self.sender
    }

    /// An empty slot.
    pub fn new() -> (s: Self)
        ensures
            s.registered() is None,
    {
        SenderSlot { sender: None }
    }

    /// The sender currently registered, if any.
    pub fn current(&self) -> (r: Option<&T>)
        ensures
            match r {
                Some(t) => self.registered() == Some(*t),
                None => self.registered() is None,
            },
    {
        match &self.sender {
            Some(t) => Some(t),
            None => None,
        }
    }
}

/// Registers the sender that events are written to.
/// Returns the old sender if one was already set.
pub fn register_sender<T>(slot: &mut SenderSlot<T>, tx: T) -> (previous: Option<T>)
    ensures
        final(slot).registered() == Some(tx),
        previous == old(slot).registered(),
{
    let mut previous = Some(tx);
    std::mem::swap(&mut previous, &mut slot.sender);
    previous
}

/// Clears the registered sender (called when a download completes).
pub fn clear_sender<T>(slot: &mut SenderSlot<T>)
    ensures
        final(slot).registered() is None,
{
    slot.sender = None;
}

} // verus!
