use vstd::prelude::*;

use crate::event::Event;
use crate::watchers::Watcher;
use std::sync::mpsc::{Receiver, Sender};

verus! {

#[verifier::external_type_specification]
#[verifier::external_body]
#[verifier::reject_recursive_types(T)]
pub struct ExSender<T>(std::sync::mpsc::Sender<T>);

#[verifier::external_type_specification]
#[verifier::external_body]
#[verifier::reject_recursive_types(T)]
pub struct ExReceiver<T>(std::sync::mpsc::Receiver<T>);

/// Relies on std's `mpsc::channel`: a new unbounded channel, as its sending
/// and its receiving half.
#[verifier::external_body]
pub(crate) fn event_channel() -> (r: (Sender<Event>, Receiver<Event>)) {
    std::sync::mpsc::channel()
}

/// The record of the events handed to watchers' channels, in the order
/// they were sent: the id of the watcher and the event. Only `send_event`
/// adds to it.
pub struct SendLog {
    entries: Ghost<Seq<(u64, Event)>>,
}

impl SendLog {
    pub closed spec fn view(&self) -> Seq<(u64, Event)> {
        self.entries@
    }

    /// A record of no sends.
    pub fn new() -> (r: Self)
        ensures
            r@ == Seq::<(u64, Event)>::empty(),
    {
        SendLog { entries: Ghost(Seq::empty()) }
    }
}

/// Relies on std's `Sender::send`: queues the event on the watcher's
/// channel, or drops it when the receiver is gone; it never blocks. The
/// send is recorded in `log`.
#[verifier::external_body]
pub(crate) fn send_event(watcher: &Watcher<Sender<Event>>, event: Event, log: &mut SendLog)
    ensures
        final(log)@ == old(log)@.push((watcher.id, event)),
{
    let _ = watcher.sender.send(event);
}

} // verus!
