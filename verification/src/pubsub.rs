//! Broadcast channels. `tokio::sync::broadcast` does the fan-out; this
//! module declares its handles and states what the library relies on when it
//! creates a channel, subscribes to it and sends on it.

use tokio::sync::broadcast::error::SendError;
use tokio::sync::broadcast::{Receiver, Sender};
use vstd::prelude::*;

verus! {

/// `broadcast::Sender`, the sending half of a channel; opaque here.
#[verifier::external_type_specification]
#[verifier::external_body]
#[verifier::reject_recursive_types(T)]
pub struct ExSender<T>(Sender<T>);

/// `broadcast::Receiver`, a receiving half of a channel; opaque here.
#[verifier::external_type_specification]
#[verifier::external_body]
#[verifier::reject_recursive_types(T)]
pub struct ExReceiver<T>(Receiver<T>);

/// `broadcast::error::SendError`, which hands back the value that could
/// not be sent; opaque here.
#[verifier::external_type_specification]
#[verifier::external_body]
#[verifier::reject_recursive_types(T)]
pub struct ExSendError<T>(SendError<T>);

/// `broadcast::channel`: a new channel that retains up to `capacity`
/// messages, with its first receiver. The call panics on a capacity of zero
/// and on one above `usize::MAX / 2`, which the precondition excludes.
pub assume_specification<T: Clone>[ tokio::sync::broadcast::channel::<T> ](capacity: usize) -> (r: (
    Sender<T>,
    Receiver<T>,
))
    requires
        0 < capacity <= usize::MAX / 2,
;

/// `Sender::subscribe`: a further receiver of the sender's channel.
pub assume_specification<T>[ Sender::<T>::subscribe ](tx: &Sender<T>) -> (rx: Receiver<T>)
;

/// `Sender::send`: hands `value` to the receivers that are subscribed at
/// this moment and returns how many they are, or fails when there is none.
/// How many there are is up to the other holders of the channel.
pub assume_specification<T>[ Sender::<T>::send ](tx: &Sender<T>, value: T) -> (r: Result<
    usize,
    SendError<T>,
>)
    ensures
        r is Ok ==> r->Ok_0 >= 1,
;

} // verus!
