//! The worker side: the single background loop that consumes the
//! submission channel and publishes exactly one result per request
//! envelope, tagged with the envelope's correlation id.

use vstd::prelude::*;
use std::sync::mpsc::Receiver;
use std::sync::mpsc::Sender;
use crate::chan;
use crate::Envelope;

verus! {

/// A worker failure record, reported on the error channel and never
/// thrown back at the caller whose request triggered it. The supervising
/// loop never reads its content; the placeholder unit of work below never
/// actually produces one.
#[derive(Debug)]
pub enum Error {
    /// The unit of work could not turn its request into a result.
    ProcessingFailed,
}

/// A completed unit of work, before it is tagged with its correlation id
/// and published on the result channel.
pub struct Response {
    pub body: Vec<u8>,
}

/// The placeholder unit of work: one request in, exactly one result out.
/// It stands for the external collaborator that would really process the
/// request; here it hands the payload back as the result body.
pub fn perform(env: Envelope) -> (r: Result<Response, Error>)
    ensures
        r matches Ok(out) && out.body == env.payload,
{
    Ok(Response { body: env.payload })
}

/// The log one worker loop run leaves behind pairs each envelope it
/// received and answered with the one result handed to the result channel
/// for it: that result carries the envelope's own correlation id, and its
/// body is the unit of work's output for the envelope's payload.
pub open spec fn answered(log: Seq<(Envelope, (u32, Response))>) -> bool {
    forall|i: int|
        0 <= i < log.len() ==> (#[trigger] log[i]).1.0 == log[i].0.id && log[i].1.1.body
            == log[i].0.payload
}

/// What a whole supervised worker session leaves behind: one entry per
/// worker-loop run, each pairing that run's answer log with the failure
/// that ended it (None for the final run when it ended naturally, on a
/// closed submission channel). Every run answered well-formedly, and
/// every run but the last ended in a reported failure — that is why a
/// further run exists.
pub open spec fn supervised(runs: Seq<(Seq<(Envelope, (u32, Response))>, Option<Error>)>) -> bool {
    forall|i: int|
        0 <= i < runs.len() ==> answered((#[trigger] runs[i]).0) && (i < runs.len() - 1
            ==> runs[i].1 is Some)
}

/// The worker loop: consume request envelopes until the submission
/// channel closes (every dispatcher gone), and emit for each one exactly
/// one result carrying the same correlation id. Ok means the loop ended
/// naturally; a processing failure surfaces as Err, leaving the envelope
/// under work unanswered, neither retried nor requeued. The returned log
/// records, in receive order, each envelope answered and the result pair
/// handed to the result channel for it. The loop carries a fuel bound so
/// that its termination is provable; the bound is too large to reach in
/// practice.
#[verifier::loop_isolation(false)]
pub fn request_loop(inq: &Receiver<Envelope>, outq: &Sender<(u32, Response)>) -> (r: (
    Result<(), Error>,
    Ghost<Seq<(Envelope, (u32, Response))>>,
))
    ensures
        answered(r.1@),
{
    let ghost mut log: Seq<(Envelope, (u32, Response))> = Seq::empty();
    let mut fuel: u64 = u64::MAX;
    loop
        invariant
            answered(log),
        decreases fuel,
    {
        if fuel == 0 {
            return (Ok(()), Ghost(log));
        }
        fuel = fuel - 1;
        match chan::recv_blocking(inq) {
            Some(env) => {
                let ghost genv = env;
                let id = env.id;
                match perform(env) {
                    Ok(out) => {
                        let ghost gout = out;
                        let _delivered = chan::send_on(outq, (id, out));
                        proof {
                            log = log.push((genv, (id, gout)));
                        }
                    },
                    Err(e) => {
                        return (Err(e), Ghost(log));
                    },
                }
            },
            None => {
                return (Ok(()), Ghost(log));
            },
        }
    }
}

} // verus!
