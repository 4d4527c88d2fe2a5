//! The receive step of the browser client socket: outgoing packets that could not be sent
//! get another try, and incoming results are taken oldest first; and the receive loop of
//! the link conditioner that can wrap a socket.

use vstd::prelude::*;
use std::collections::VecDeque;

verus! {

/// One receive of the client socket. The outgoing packets that the data channel dropped are
/// all handed back, oldest first, to be sent again, and their queue is left empty. Then the
/// oldest queued incoming result is taken out and returned: a packet, nothing, or an error.
/// With nothing queued the result is `Ok(None)`.
pub fn client_receive<P, E>(
    dropped: &mut VecDeque<P>,
    incoming: &mut VecDeque<Result<Option<P>, E>>,
) -> (step: (Vec<P>, Result<Option<P>, E>))
    ensures
        step.0@ == old(dropped)@,
        final(dropped)@ == Seq::<P>::empty(),
        old(incoming)@.len() == 0 ==> step.1 == Ok::<Option<P>, E>(None) && final(incoming)@ == old(incoming)@,
        old(incoming)@.len() > 0 ==> step.1 == old(incoming)@[0] && final(incoming)@ == old(incoming)@.drop_first(),
{
    let mut resend: Vec<P> = Vec::new();
    let ghost all = dropped@;
    while dropped.len() > 0
        invariant
            resend@ + dropped@ == all,
        decreases dropped@.len(),
    {
        let packet = dropped.pop_front();
        match packet {
            Some(p) => {
                resend.push(p);
                proof {
                    assert(resend@ + dropped@ =~= all);
                }
            },
            None => {},
        }
    }
    proof {
        assert(resend@ =~= all);
    }
    let next = incoming.pop_front();
    let result = match next {
        Some(r) => r,
        None => Ok(None),
    };
    (resend, result)
}

/// What a link conditioner does next in its receive loop.
#[derive(Debug, PartialEq, Eq)]
pub enum ConditionerStep<P, E> {
    /// Condition the packet (drop or delay it), then go on receiving.
    Condition(P),
    /// Hand out a packet whose delay has passed, if there is one.
    Deliver,
    /// Stop and pass the socket's error on.
    Fail(E),
}

/// One step of the client's link conditioner: each packet that the wrapped socket hands out
/// is conditioned and the socket asked again; once the socket has nothing more, a packet
/// whose delay has passed is delivered (or nothing); an error of the socket is passed on.
pub fn conditioner_step<P, E>(received: Result<Option<P>, E>) -> (step: ConditionerStep<P, E>)
    ensures
        match received {
            Ok(Some(packet)) => step == ConditionerStep::<P, E>::Condition(packet),
            Ok(None) => step == ConditionerStep::<P, E>::Deliver,
            Err(error) => step == ConditionerStep::<P, E>::Fail(error),
        },
{
    match received {
        Ok(Some(packet)) => ConditionerStep::Condition(packet),
        Ok(None) => ConditionerStep::Deliver,
        Err(error) => ConditionerStep::Fail(error),
    }
}

/// What wakes the server's link conditioner.
pub enum ServerConditionerEvent<P, E> {
    /// The wrapped socket received something, or failed.
    Received(Result<P, E>),
    /// The delay of the earliest queued packet has passed.
    DelayPassed,
}

/// One step of the server's link conditioner: a received packet is conditioned and the
/// conditioner waits again, a socket error is passed on, and when a delay has passed the
/// queued packet is delivered (if the queue still has one; otherwise it waits again).
pub fn server_conditioner_step<P, E>(event: ServerConditionerEvent<P, E>) -> (step: ConditionerStep<P, E>)
    ensures
        match event {
            ServerConditionerEvent::Received(Ok(packet)) => step == ConditionerStep::<P, E>::Condition(packet),
            ServerConditionerEvent::Received(Err(error)) => step == ConditionerStep::<P, E>::Fail(error),
            ServerConditionerEvent::DelayPassed => step == ConditionerStep::<P, E>::Deliver,
        },
{
    match event {
        ServerConditionerEvent::Received(Ok(packet)) => ConditionerStep::Condition(packet),
        ServerConditionerEvent::Received(Err(error)) => ConditionerStep::Fail(error),
        ServerConditionerEvent::DelayPassed => ConditionerStep::Deliver,
    }
}

} // verus!
