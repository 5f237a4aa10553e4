use vstd::prelude::*;
use crate::common::Id;
use crate::action::Action;

verus! {

/// Something that takes the decoded messages of users.
pub trait MessageSink {
    /// What it is told.
    type Message;
    /// What handling a message yields.
    type Outcome;

    /// The state in which it can take messages.
    spec fn sink_wf(&self) -> bool;

    /// Handles a message of `id`, whoever `id` is.
    fn proc_message(&mut self, id: Id, msg: Self::Message) -> (out: Self::Outcome)
        requires
            old(self).sink_wf(),
        ensures
            final(self).sink_wf(),
    ;
}

/// Something that must know when a user disconnects.
pub trait UserEventListener {
    /// The state in which it can be told.
    spec fn listener_wf(&self) -> bool;

    /// `id` disconnected.
    fn user_disconnect(&mut self, id: Id) -> (acts: Vec<Action>)
        requires
            old(self).listener_wf(),
        ensures
            final(self).listener_wf(),
    ;
}

/// A place that users can be routed to: it takes their messages and learns
/// of their departure.
pub trait RawService: MessageSink + UserEventListener {

}

} // verus!
