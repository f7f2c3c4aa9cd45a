//! The completion signal: a one-shot, cross-thread handoff telling a waiter
//! that every scheduled note has been consumed.
//!
//! The channel itself comes from `std::sync::mpsc`, which the verifier has no
//! specification for; the three calls the library makes are wrapped as
//! trusted items here.  Nothing is promised of the channel beyond what the
//! scheduler proves about *when* it chooses to send: exactly once, at the
//! moment the pending queue drains.

use vstd::prelude::*;

verus! {

/// The one message ever sent over the completion channel.
pub enum Msg {
    Done,
}

#[verifier::external_type_specification]
#[verifier::external_body]
#[verifier::reject_recursive_types(T)]
pub struct ExSender<T>(std::sync::mpsc::Sender<T>);

#[verifier::external_type_specification]
#[verifier::external_body]
#[verifier::reject_recursive_types(T)]
pub struct ExReceiver<T>(std::sync::mpsc::Receiver<T>);

/// Relies on `std::sync::mpsc::channel`: creates a connected
/// sender/receiver pair for the completion handoff.
#[verifier::external_body]
pub(crate) fn make_channel() -> (pair: (
    std::sync::mpsc::Sender<Msg>,
    std::sync::mpsc::Receiver<Msg>,
))
{
    std::sync::mpsc::channel()
}

/// Relies on `std::sync::mpsc::Sender::send`: delivers the message unless
/// the receiver is gone, and never blocks.  A missing waiter is not an
/// error for the real-time side, so the result is discarded.
#[verifier::external_body]
pub(crate) fn send_done(tx: &std::sync::mpsc::Sender<Msg>)
{
    let _ = tx.send(Msg::Done);
}

/// Relies on `std::sync::mpsc::Receiver::recv`: blocks until a message
/// arrives or every sender is gone, and reports which of the two happened.
#[verifier::external_body]
pub(crate) fn recv_msg(rx: &std::sync::mpsc::Receiver<Msg>) -> (got: bool)
{
    rx.recv().is_ok()
}

/// The waiter's end of the completion signal.
pub struct SynthHandle {
    rx: std::sync::mpsc::Receiver<Msg>,
}

impl SynthHandle {
    pub(crate) fn from_receiver(rx: std::sync::mpsc::Receiver<Msg>) -> SynthHandle {
        SynthHandle { rx }
    }

    /// Block until the synthesizer has consumed every scheduled note (or its
    /// sending half has been dropped, whichever comes first).
    pub fn wait(&self) {
        let _ = recv_msg(&self.rx);
    }
}

} // verus!
