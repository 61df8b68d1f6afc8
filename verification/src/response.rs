//! The channel on which a request is answered.

use futures::sync::oneshot;
use vstd::prelude::*;

verus! {

/// The completing half of a one-shot channel of the `futures` crate.
#[verifier::external_type_specification]
#[verifier::external_body]
#[verifier::reject_recursive_types(T)]
pub struct ExSender<T>(oneshot::Sender<T>);

/// The awaiting half of a one-shot channel of the `futures` crate.
#[verifier::external_type_specification]
#[verifier::external_body]
#[verifier::reject_recursive_types(T)]
pub struct ExReceiver<T>(oneshot::Receiver<T>);

/// What a receiver of the `futures` crate reports once its sender is gone.
#[verifier::external_type_specification]
#[verifier::external_body]
pub struct ExCanceled(oneshot::Canceled);

/// Errors which can occur while trying to fulfill a request.
#[derive(Clone, Copy, Debug, PartialEq, Eq, Structural)]
pub enum Error {
    /// Request was canceled.
    Canceled,
    /// No suitable peers available to serve the request.
    NoPeersAvailable,
    /// Request timed out.
    TimedOut,
}

impl From<oneshot::Canceled> for Error {
    fn from(_canceled: oneshot::Canceled) -> (error: Self) {
        Error::Canceled
    }
}

impl vstd::std_specs::convert::FromSpecImpl<oneshot::Canceled> for Error {
    open spec fn obeys_from_spec() -> bool {
        true
    }

    open spec fn from_spec(v: oneshot::Canceled) -> Self {
        Error::Canceled
    }
}

/// Whether a value is there yet.
#[derive(Debug, PartialEq, Eq)]
pub enum Async<T> {
    /// The value.
    Ready(T),
    /// Not yet.
    NotReady,
}

/// Awaits the answer to an on-demand request.
#[verifier::reject_recursive_types(T)]
pub struct Response<T>(pub oneshot::Receiver<Result<T, Error>>);

/// Where the answer to a request goes.
pub type ReplySender<T> = oneshot::Sender<Result<T, Error>>;

/// `futures::sync::oneshot::channel`: makes a channel and returns its two halves.
/// Nothing is claimed of either half by itself. That two halves came out of one
/// call is what [`linked`] says.
#[verifier::external_body]
fn oneshot_channel<T>() -> (halves: (oneshot::Sender<T>, oneshot::Receiver<T>)) {
    oneshot::channel()
}

/// `futures::sync::oneshot::Sender::send`: consumes the sender and hands the value
/// to the receiver, or gives the very value back if the receiver is gone.
#[verifier::external_body]
fn oneshot_send<T>(sender: oneshot::Sender<T>, value: T) -> (outcome: Result<(), T>)
    ensures
        outcome matches Err(back) ==> back == value,
{
    sender.send(value)
}

/// `futures::sync::oneshot::Sender::is_canceled`: whether the receiver is gone.
/// The answer depends on what the holder of the receiver has done by then, so
/// nothing is claimed of it.
#[verifier::external_body]
fn oneshot_is_canceled<T>(sender: &oneshot::Sender<T>) -> (gone: bool) {
    sender.is_canceled()
}

/// The sender and the response are the two halves of one channel: one call of
/// `oneshot_channel` returned both.
pub closed spec fn linked<T>(sender: ReplySender<T>, response: Response<T>) -> bool {
    call_ensures(oneshot_channel::<Result<T, Error>>, (), (sender, response.0))
}

/// The result was sent through the sender.
pub closed spec fn sent<T>(sender: ReplySender<T>, result: Result<T, Error>) -> bool {
    exists|outcome: Result<(), Result<T, Error>>| #[trigger]
        call_ensures(oneshot_send::<Result<T, Error>>, (sender, result), outcome)
}

/// The sender was asked whether its receiver is gone, and the answer was `gone`.
pub closed spec fn observed<T>(sender: ReplySender<T>, gone: bool) -> bool {
    call_ensures(oneshot_is_canceled::<Result<T, Error>>, (&sender,), gone)
}

/// Two halves are linked if one call of the channel's maker returned them together.
proof fn law_linked<T>(sender: ReplySender<T>, response: Response<T>)
    ensures
        linked(sender, response) <==> call_ensures(
            oneshot_channel::<Result<T, Error>>,
            (),
            (sender, response.0),
        ),
{
}

/// A result was sent if the channel's own sending was called with this sender and this result.
proof fn law_sent<T>(sender: ReplySender<T>, result: Result<T, Error>)
    ensures
        sent(sender, result) <==> exists|outcome: Result<(), Result<T, Error>>| #[trigger]
            call_ensures(oneshot_send::<Result<T, Error>>, (sender, result), outcome),
{
}

/// What was observed of a sender is what the channel's own check said of it.
proof fn law_observed<T>(sender: ReplySender<T>, gone: bool)
    ensures
        observed(sender, gone) <==> call_ensures(
            oneshot_is_canceled::<Result<T, Error>>,
            (&sender,),
            gone,
        ),
{
}

/// A sender that went away without an answer means that the request was canceled.
pub proof fn law_canceled(canceled: oneshot::Canceled)
    ensures
        <Error as vstd::std_specs::convert::FromSpec<oneshot::Canceled>>::obeys_from_spec(),
        <Error as vstd::std_specs::convert::FromSpec<oneshot::Canceled>>::from_spec(canceled)
            == Error::Canceled,
{
}

/// Makes the channel for one request.
pub fn channel<T>() -> (halves: (ReplySender<T>, Response<T>))
    ensures
        linked(halves.0, halves.1),
{
    let (sender, receiver) = oneshot_channel::<Result<T, Error>>();
    (sender, Response(receiver))
}

/// Completes a request. A result that nobody awaits any more is dropped.
pub fn complete<T>(sender: ReplySender<T>, result: Result<T, Error>)
    ensures
        sent(sender, result),
{
    let _outcome = oneshot_send::<Result<T, Error>>(sender, result);
}

/// Checks whether the caller has dropped its response.
pub fn check_hangup<T>(sender: &ReplySender<T>) -> (gone: bool)
    ensures
        observed(*sender, gone),
{
    oneshot_is_canceled::<Result<T, Error>>(sender)
}

impl<T> Response<T> {
    /// What a poll of the response yields, given what a poll of the channel
    /// yielded: the answer once it was sent, or that the request was canceled if
    /// the sender went away without sending one.
    pub fn poll(polled: Result<Async<Result<T, Error>>, oneshot::Canceled>) -> (answer: Result<
        Async<T>,
        Error,
    >)
        ensures
            answer == (match polled {
                Ok(Async::Ready(Ok(value))) => Ok::<Async<T>, Error>(Async::Ready(value)),
                Ok(Async::Ready(Err(error))) => Err(error),
                Ok(Async::NotReady) => Ok(Async::NotReady),
                Err(_) => Err(Error::Canceled),
            }),
    {
        match polled {
            Ok(Async::Ready(Ok(value))) => Ok(Async::Ready(value)),
            Ok(Async::Ready(Err(error))) => Err(error),
            Ok(Async::NotReady) => Ok(Async::NotReady),
            Err(canceled) => Err(Error::from(canceled)),
        }
    }
}

} // verus!
