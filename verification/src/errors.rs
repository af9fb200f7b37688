//! The error taxonomy of the queue layer.
use vstd::prelude::*;

verus! {

/// What went wrong in a queue operation.
///
/// `Queue` covers every failure originating from the backend transport and
/// is the only retryable kind. `Decode` marks a payload that is present but
/// not a valid tagged task encoding; `EmptyDelivery` a transport handle that
/// carried no payload at all; `Startup` a transport that could not be
/// constructed at process start. None of those three is ever retried.
#[derive(Clone, Copy, Debug, PartialEq, Eq, Structural)]
pub enum Error {
    Queue,
    Decode,
    EmptyDelivery,
    Startup,
}

impl Error {
    /// A short stable label for logging.
    pub fn label(&self) -> (r: &'static str)
        ensures
            self is Queue ==> r@ == "queue transport failure"@,
            self is Decode ==> r@ == "payload decode failure"@,
            self is EmptyDelivery ==> r@ == "empty delivery"@,
            self is Startup ==> r@ == "transport construction failure"@,
    {
        match self {
            Error::Queue => "queue transport failure",
            Error::Decode => "payload decode failure",
            Error::EmptyDelivery => "empty delivery",
            Error::Startup => "transport construction failure",
        }
    }
}

} // verus!
