use vstd::prelude::*;
use tokio::sync::oneshot::{Receiver, Sender};

verus! {

#[verifier::external_type_specification]
#[verifier::external_body]
#[verifier::reject_recursive_types(T)]
pub struct ExOneshotSender<T>(Sender<T>);

#[verifier::external_type_specification]
#[verifier::external_body]
#[verifier::reject_recursive_types(T)]
pub struct ExOneshotReceiver<T>(Receiver<T>);

/// The error a oneshot receiver resolves to; the receiver's future names it.
#[verifier::external_type_specification]
#[verifier::external_body]
pub struct ExOneshotRecvError(tokio::sync::oneshot::error::RecvError);

/// Creates a pair of ends of a tokio oneshot channel (`tokio::sync::oneshot::channel`).
/// Nothing is stated of the pair: the two ends are opaque here.
#[verifier::external_body]
fn signal_channel() -> (ends: (Sender<()>, Receiver<()>)) {
    tokio::sync::oneshot::channel::<()>()
}

/// Sends the unit signal on a oneshot sender (`tokio::sync::oneshot::Sender::send`)
/// and tells whether it was accepted. Whether it is accepted depends on whether
/// the receiving end is still alive, which nothing here tracks, so the result
/// is left free.
#[verifier::external_body]
fn send_signal(sender: Sender<()>) -> (accepted: bool) {
    sender.send(()).is_ok()
}

/// Why a cancel token refused a request.
#[derive(Debug, Clone, Copy, PartialEq, Eq, Structural)]
pub enum CancelError {
    /// The signal was sent, but the listening end had already gone away,
    CouldNotSend,
    /// The signal was already sent; there is nothing left to do,
    Skip,
    /// The listening end was already handed out,
    AlreadyActivated,
}

/// Component holding both ends of a oneshot signal, used to cancel an ongoing task.
pub struct CancelToken {
    sender: Option<Sender<()>>,
    source: Option<Receiver<()>>,
}

/// What is left in a cancel token: whether it can still send the signal
/// (`armed`), and whether it still holds the listening end (`listening`).
pub struct CancelTokenView {
    pub armed: bool,
    pub listening: bool,
}

impl View for CancelToken {
    type V = CancelTokenView;

    closed spec fn view(&self) -> CancelTokenView {
        CancelTokenView { armed: self.sender is Some, listening: self.source is Some }
    }
}

/// The token after a cancel request: the signal is spent either way.
pub open spec fn after_cancel(t: CancelTokenView) -> CancelTokenView {
    CancelTokenView { armed: false, listening: t.listening }
}

/// The token after an activation request: the listening end is handed out either way.
pub open spec fn after_activate(t: CancelTokenView) -> CancelTokenView {
    CancelTokenView { armed: t.armed, listening: false }
}

/// The outcome of a cancel request on a token that can no longer send.
pub open spec fn cancel_refusal(t: CancelTokenView) -> Option<CancelError> {
    if t.armed { None } else { Some(CancelError::Skip) }
}

/// The outcome of an activation request on a token that no longer listens.
pub open spec fn activate_refusal(t: CancelTokenView) -> Option<CancelError> {
    if t.listening { None } else { Some(CancelError::AlreadyActivated) }
}

impl CancelToken {
    /// Creates a new cancel token, holding both ends of a fresh signal.
    pub fn new() -> (t: CancelToken)
        ensures
            t@ == (CancelTokenView { armed: true, listening: true }),
    {
        let (tx, rx) = signal_channel();
        CancelToken { sender: Some(tx), source: Some(rx) }
    }

    /// Signals cancellation. The signal can be sent once: a token that already
    /// sent it answers `Skip`. When the listening end is gone the signal is lost
    /// and the answer is `CouldNotSend`.
    pub fn cancel(&mut self) -> (r: Result<(), CancelError>)
        ensures
            final(self)@ == after_cancel(old(self)@),
            cancel_refusal(old(self)@) is Some ==> r == Err::<(), CancelError>(cancel_refusal(old(self)@).unwrap()),
            cancel_refusal(old(self)@) is None ==> (r is Ok || r == Err::<(), CancelError>(CancelError::CouldNotSend)),
    {
        let mut sender: Option<Sender<()>> = None;
        std::mem::swap(&mut sender, &mut self.sender);
        match sender {
            Some(tx) => {
                if send_signal(tx) {
                    Ok(())
                } else {
                    Err(CancelError::CouldNotSend)
                }
            },
            None => Err(CancelError::Skip),
        }
    }

    /// Activates the token and hands out the listening end, once.
    pub fn activate(&mut self) -> (r: Result<Receiver<()>, CancelError>)
        ensures
            final(self)@ == after_activate(old(self)@),
            activate_refusal(old(self)@) is Some <==> r is Err,
            r is Err ==> r == Err::<Receiver<()>, CancelError>(activate_refusal(old(self)@).unwrap()),
    {
        let mut source: Option<Receiver<()>> = None;
        std::mem::swap(&mut source, &mut self.source);
        match source {
            Some(rx) => Ok(rx),
            None => Err(CancelError::AlreadyActivated),
        }
    }
}

/// A cancel token sends its signal at most once: whatever the first request
/// answered, a second one is refused with `Skip`.
pub proof fn law_cancel_once(t: CancelTokenView)
    ensures
        cancel_refusal(after_cancel(t)) == Some(CancelError::Skip),
        after_cancel(after_cancel(t)) == after_cancel(t),
{
}

/// A cancel token hands out its listening end at most once: a second
/// activation is refused with `AlreadyActivated`.
pub proof fn law_activate_once(t: CancelTokenView)
    ensures
        activate_refusal(after_activate(t)) == Some(CancelError::AlreadyActivated),
        after_activate(after_activate(t)) == after_activate(t),
{
}

/// Cancelling and activating touch different ends: the order does not matter.
pub proof fn law_cancel_activate_commute(t: CancelTokenView)
    ensures
        after_cancel(after_activate(t)) == after_activate(after_cancel(t)),
        activate_refusal(after_cancel(t)) == activate_refusal(t),
        cancel_refusal(after_activate(t)) == cancel_refusal(t),
{
}

} // verus!
