//! An asynchronous request/response correlation engine.
//!
//! Callers submit work from any thread and get back an opaque handle; a
//! single background worker consumes the submission channel and publishes
//! one result per request on the result channel, tagged with the request's
//! correlation id. Callers later retrieve their own result by polling
//! (`try_take`) or blocking (`wait`); whoever drains the result channel
//! deposits everything found there into a shared completed-result cache,
//! so unrelated callers benefit from each other's drains.

use vstd::prelude::*;
use std::collections::HashMap;
use std::sync::mpsc::Receiver;
use std::sync::mpsc::Sender;

pub(crate) mod chan;
pub mod model;
pub mod reqloop;

verus! {

/// The caller-visible handle: a wrapper around the correlation id of one
/// submitted request. Its sole purpose is to let the caller later ask
/// whether its result is ready. The id is public so that embeddings and
/// tests can play the worker's side of the channels; callers should treat
/// it as opaque — a forged handle can claim another caller's result.
#[derive(Clone, Copy, Debug)]
pub struct Ref {
    pub id: u32,
}

/// A completed result, as delivered to the claiming caller.
#[derive(Debug, PartialEq, Eq)]
pub struct Response {
    pub body: Vec<u8>,
}

/// One submitted request: the correlation id plus the work-unit's input,
/// which is opaque to the engine.
pub struct Envelope {
    pub id: u32,
    pub url: String,
    pub headers: HashMap<String, Vec<String>>,
    pub payload: Vec<u8>,
}

/// Dispatcher-level failures surfaced to callers.
#[derive(Debug, PartialEq, Eq)]
pub enum DispatchError {
    /// A channel's receiving counterpart no longer exists; `send` cannot
    /// deliver the request.
    ChannelClosed,
    /// `wait` exhausted the result channel without seeing its id: the
    /// worker is permanently gone, or this request was lost to a worker
    /// failure, so the result can never arrive.
    WorkerUnavailable,
}

/// The worker's ends of the three channels, to be handed to the execution
/// context that runs `run_request_thread`.
pub struct WorkerEnd {
    pub inq: Receiver<Envelope>,
    pub outq: Sender<(u32, reqloop::Response)>,
    pub errq: Sender<reqloop::Error>,
}

/// The dispatcher: the one component callers interact with. It owns the
/// caller-side channel endpoints and the shared completed-result cache.
pub struct RequestThread {
    inq: Sender<Envelope>,
    outq: Receiver<(u32, reqloop::Response)>,
    errq: Receiver<reqloop::Error>,
    completed_requests: HashMap<u32, Response>,
    outstanding: Vec<u32>,
    // Specification-only record of every envelope handed to the
    // submission channel, in submission order.
    submitted: Ghost<Seq<Envelope>>,
}

impl Response {
    /// Lift a worker-side result into the caller-visible result.
    pub fn from_resp(resp: reqloop::Response) -> (r: Self)
        ensures
            r.body == resp.body,
    {
        Response { body: resp.body }
    }
}

impl RequestThread {
    /// The completed-result cache: results that have left the result
    /// channel but are not yet claimed, keyed by correlation id.
    pub closed spec fn cache(&self) -> Map<u32, Response> {
        self.completed_requests@
    }

    /// The correlation ids of requests submitted but not yet claimed.
    pub closed spec fn outstanding_ids(&self) -> Seq<u32> {
        self.outstanding@
    }

    /// The envelopes this dispatcher has handed to the submission
    /// channel, in submission order.
    pub closed spec fn submitted_log(&self) -> Seq<Envelope> {
        self.submitted@
    }

    /// The dispatcher's invariant: outstanding ids are pairwise distinct,
    /// so no two simultaneously outstanding handles name the same request.
    pub closed spec fn wf(&self) -> bool {
        model::distinct_ids(self.outstanding@)
    }

    /// Uniqueness law: no two simultaneously outstanding handles carry
    /// the same correlation id.
    pub proof fn lemma_handles_unique(&self, i: int, j: int)
        requires
            self.wf(),
            0 <= i < j < self.outstanding_ids().len(),
        ensures
            self.outstanding_ids()[i] != self.outstanding_ids()[j],
    {
    }

    /// Make a dispatcher and the worker's channel ends. The caller gives
    /// the worker ends to whatever execution context runs
    /// `run_request_thread`; the dispatcher starts with an empty cache and
    /// nothing outstanding.
    pub fn new() -> (r: (RequestThread, WorkerEnd))
        ensures
            r.0.wf(),
            r.0.cache() == Map::<u32, Response>::empty(),
            r.0.outstanding_ids() == Seq::<u32>::empty(),
            r.0.submitted_log() == Seq::<Envelope>::empty(),
    {
        let (inq_s, inq_r) = chan::new_channel();
        let (outq_s, outq_r) = chan::new_channel();
        let (errq_s, errq_r) = chan::new_channel();
        let rt = RequestThread {
            inq: inq_s,
            outq: outq_r,
            errq: errq_r,
            completed_requests: HashMap::new(),
            outstanding: Vec::new(),
            submitted: Ghost(Seq::empty()),
        };
        let ends = WorkerEnd { inq: inq_r, outq: outq_s, errq: errq_s };
        (rt, ends)
    }

    /// Submit one request: a correlation id that no outstanding handle
    /// carries is generated, the envelope goes out on the submission
    /// channel, and the caller gets its handle at once, without waiting on
    /// the worker. On success, exactly one envelope — the caller's url,
    /// headers and payload under the handle's own id — was enqueued, and
    /// the submission log records it. Fails, with ChannelClosed, only when
    /// the worker side of the submission channel is gone; nothing is
    /// enqueued then.
    pub fn send(
        &mut self,
        url: String,
        headers: HashMap<String, Vec<String>>,
        payload: Vec<u8>,
    ) -> (r: Result<Ref, DispatchError>)
        requires
            old(self).wf(),
            old(self).outstanding_ids().len() < 0xFFFF_FFFF,
        ensures
            final(self).wf(),
            final(self).cache() == old(self).cache(),
            (match r {
                Ok(h) => !old(self).outstanding_ids().contains(h.id) && final(self).outstanding_ids() == old(self).outstanding_ids().push(h.id) && final(self).submitted_log() == old(self).submitted_log().push(
                    (Envelope { id: h.id, url: url, headers: headers, payload: payload }),
                ),
                Err(e) => e is ChannelClosed && final(self).outstanding_ids() == old(self).outstanding_ids() && final(self).submitted_log() == old(self).submitted_log(),
            }),
    {
        let candidate: u32 = chan::random_u32();
        let id = fresh_id(candidate, &self.outstanding);
        let env = Envelope { id, url, headers, payload };
        let ghost genv = env;
        if chan::send_on(&self.inq, env) {
            self.submitted = Ghost(self.submitted@.push(genv));
            let ghost before = self.outstanding@;
            self.outstanding.push(id);
            proof {
                assert forall|a: int, b: int|
                    0 <= a < b < self.outstanding@.len() implies self.outstanding@[a]
                    != self.outstanding@[b] by {
                    if b == before.len() as int {
                        if before[a] == id {
                            assert(before.contains(id));
                        }
                    } else {
                        assert(self.outstanding@[a] == before[a]);
                        assert(self.outstanding@[b] == before[b]);
                    }
                }
            }
            Ok(Ref { id })
        } else {
            Err(DispatchError::ChannelClosed)
        }
    }

    /// Drain the result channel without blocking: every result available
    /// right now moves into the completed-result cache, a later result
    /// overwriting an earlier one for the same id. Stops at the first
    /// empty or closed report (a closed channel is not an error here), or
    /// at the fuel bound, which is too large to reach in practice.
    #[verifier::loop_isolation(false)]
    fn drain(&mut self) -> (drained: Ghost<Seq<(u32, Response)>>)
        ensures
            final(self).cache() == model::absorbed(old(self).cache(), drained@),
            final(self).outstanding_ids() == old(self).outstanding_ids(),
            final(self).submitted_log() == old(self).submitted_log(),
    {
        let ghost mut batch: Seq<(u32, Response)> = Seq::empty();
        let mut fuel: u64 = u64::MAX;
        loop
            invariant
                self.completed_requests@ == model::absorbed(old(self).completed_requests@, batch),
                self.outstanding@ == old(self).outstanding@,
                self.submitted == old(self).submitted,
            decreases fuel,
        {
            if fuel == 0 {
                break;
            }
            fuel = fuel - 1;
            match chan::poll_channel(&self.outq) {
                chan::Polled::Item(pair) => {
                    let (id, wresp) = pair;
                    let resp = Response::from_resp(wresp);
                    let ghost gresp = resp;
                    let ghost prev = batch;
                    self.completed_requests.insert(id, resp);
                    proof {
                        batch = prev.push((id, gresp));
                        assert(prev.push((id, gresp)).drop_last() =~= prev);
                    }
                },
                _ => {
                    break;
                },
            }
        }
        Ghost(batch)
    }

    /// Claim the cache entry for the handle's id: remove and return it,
    /// retiring the outstanding id with it. None when nothing is cached
    /// for the id.
    fn claim(&mut self, r: &Ref) -> (res: Option<Response>)
        requires
            model::distinct_ids(old(self).outstanding@),
        ensures
            model::distinct_ids(final(self).outstanding@),
            final(self).completed_requests@ == old(self).completed_requests@.remove(r.id),
            res == (if old(self).completed_requests@.contains_key(r.id) {
                Some(old(self).completed_requests@[r.id])
            } else {
                None::<Response>
            }),
            res is Some ==> !final(self).outstanding@.contains(r.id),
            res is None ==> final(self).outstanding@ == old(self).outstanding@,
            final(self).submitted == old(self).submitted,
            forall|x: u32|
                x != r.id ==> (final(self).outstanding@.contains(x) <==> old(self).outstanding@.contains(x)),
    {
        let out = self.completed_requests.remove(&r.id);
        match out {
            Some(v) => {
                remove_outstanding(&mut self.outstanding, r.id);
                Some(v)
            },
            None => None,
        }
    }

    /// Non-blocking retrieval ("try_take"): drain the result channel into
    /// the shared cache, then remove and return the entry matching the
    /// handle, or None when the result has not arrived. Some drained batch
    /// accounts for the new cache exactly; a result already cached before
    /// the call is always returned.
    pub fn try_take(&mut self, r: &Ref) -> (res: Option<Response>)
        requires
            old(self).wf(),
        ensures
            final(self).wf(),
            exists|batch: Seq<(u32, Response)>|
                model::take_step(old(self).cache(), final(self).cache(), batch, r.id, res),
            !final(self).cache().contains_key(r.id),
            old(self).cache().contains_key(r.id) ==> res is Some,
            res is Some ==> !final(self).outstanding_ids().contains(r.id),
            res is None ==> final(self).outstanding_ids() == old(self).outstanding_ids(),
            final(self).submitted_log() == old(self).submitted_log(),
            forall|x: u32|
                x != r.id ==> (final(self).outstanding_ids().contains(x) <==> old(self).outstanding_ids().contains(x)),
    {
        let ghost c0 = self.completed_requests@;
        let drained = self.drain();
        let ghost b1 = drained@;
        let res = self.claim(r);
        proof {
            model::lemma_absorbed_key(c0, b1, r.id);
            assert(model::take_step(old(self).cache(), self.cache(), b1, r.id, res));
            assert(exists|batch: Seq<(u32, Response)>|
                model::take_step(old(self).cache(), self.cache(), batch, r.id, res));
        }
        res
    }

    /// Blocking retrieval: first a non-blocking take; if the result has
    /// already arrived it is returned at once, the same value a poll would
    /// give. Otherwise receive from the result channel, caching every
    /// result seen so that concurrent callers waiting on other ids benefit
    /// from this drain, until the matching id has been observed and
    /// cached, then claim it. If the channel closes first, the worker is
    /// gone and the result can never arrive: fail with WorkerUnavailable
    /// within bounded time instead of hanging. (A fuel bound, too large to
    /// reach in practice, makes the loop's termination provable.)
    #[verifier::loop_isolation(false)]
    pub fn wait(&mut self, r: &Ref) -> (res: Result<Response, DispatchError>)
        requires
            old(self).wf(),
        ensures
            final(self).wf(),
            exists|batch: Seq<(u32, Response)>|
                model::wait_step(old(self).cache(), final(self).cache(), batch, r.id, res),
            !final(self).cache().contains_key(r.id),
            old(self).cache().contains_key(r.id) ==> res is Ok,
            res is Ok ==> !final(self).outstanding_ids().contains(r.id),
            res is Err ==> final(self).outstanding_ids() == old(self).outstanding_ids(),
            (match res {
                Ok(_) => true,
                Err(e) => e is WorkerUnavailable,
            }),
            final(self).submitted_log() == old(self).submitted_log(),
            forall|x: u32|
                x != r.id ==> (final(self).outstanding_ids().contains(x) <==> old(self).outstanding_ids().contains(x)),
    {
        let ghost c0 = self.completed_requests@;
        let drained = self.drain();
        let ghost mut total = drained@;
        proof {
            model::lemma_absorbed_key(c0, total, r.id);
        }
        if self.contains_cached(r.id) {
            let res = self.claim(r);
            match res {
                Some(v) => {
                    proof {
                        assert(model::wait_step(
                            old(self).cache(),
                            self.cache(),
                            total,
                            r.id,
                            Ok::<Response, DispatchError>(v),
                        ));
                        assert(exists|batch: Seq<(u32, Response)>|
                            model::wait_step(
                                old(self).cache(),
                                self.cache(),
                                batch,
                                r.id,
                                Ok::<Response, DispatchError>(v),
                            ));
                    }
                    return Ok(v);
                },
                None => {
                    return Err(DispatchError::WorkerUnavailable);
                },
            }
        }
        let mut fuel: u64 = u64::MAX;
        loop
            invariant
                self.completed_requests@ == model::absorbed(c0, total),
                !self.completed_requests@.contains_key(r.id),
                self.outstanding@ == old(self).outstanding@,
                model::distinct_ids(self.outstanding@),
                self.submitted == old(self).submitted,
            decreases fuel,
        {
            if fuel == 0 {
                proof {
                    assert(model::absorbed(c0, total).remove(r.id) =~= model::absorbed(c0, total));
                    assert(model::wait_step(
                        old(self).cache(),
                        self.cache(),
                        total,
                        r.id,
                        Err::<Response, DispatchError>(DispatchError::WorkerUnavailable),
                    ));
                    assert(exists|batch: Seq<(u32, Response)>|
                        model::wait_step(
                            old(self).cache(),
                            self.cache(),
                            batch,
                            r.id,
                            Err::<Response, DispatchError>(DispatchError::WorkerUnavailable),
                        ));
                }
                return Err(DispatchError::WorkerUnavailable);
            }
            fuel = fuel - 1;
            match chan::recv_blocking(&self.outq) {
                Some(pair) => {
                    let (id, wresp) = pair;
                    let resp = Response::from_resp(wresp);
                    let ghost gresp = resp;
                    let ghost prev = total;
                    self.completed_requests.insert(id, resp);
                    proof {
                        total = prev.push((id, gresp));
                        assert(prev.push((id, gresp)).drop_last() =~= prev);
                    }
                    if id == r.id {
                        let res = self.claim(r);
                        match res {
                            Some(v) => {
                                proof {
                                    assert(model::wait_step(
                                        old(self).cache(),
                                        self.cache(),
                                        total,
                                        r.id,
                                        Ok::<Response, DispatchError>(v),
                                    ));
                                    assert(exists|batch: Seq<(u32, Response)>|
                                        model::wait_step(
                                            old(self).cache(),
                                            self.cache(),
                                            batch,
                                            r.id,
                                            Ok::<Response, DispatchError>(v),
                                        ));
                                }
                                return Ok(v);
                            },
                            None => {
                                return Err(DispatchError::WorkerUnavailable);
                            },
                        }
                    }
                },
                None => {
                    proof {
                        assert(model::absorbed(c0, total).remove(r.id) =~= model::absorbed(
                            c0,
                            total,
                        ));
                        assert(model::wait_step(
                            old(self).cache(),
                            self.cache(),
                            total,
                            r.id,
                            Err::<Response, DispatchError>(DispatchError::WorkerUnavailable),
                        ));
                        assert(exists|batch: Seq<(u32, Response)>|
                            model::wait_step(
                                old(self).cache(),
                                self.cache(),
                                batch,
                                r.id,
                                Err::<Response, DispatchError>(DispatchError::WorkerUnavailable),
                            ));
                    }
                    return Err(DispatchError::WorkerUnavailable);
                },
            }
        }
    }

    /// How many submitted requests are still unclaimed. Callers outside
    /// the verifier can test `send`'s id-space bound with this.
    pub fn outstanding_len(&self) -> (n: usize)
        ensures
            n == self.outstanding_ids().len(),
    {
        self.outstanding.len()
    }

    /// Drain the advisory error channel: every worker failure record
    /// reported so far, in the order reported. Consuming these is not
    /// required for correctness; they make worker failures observable
    /// instead of silently swallowed. Nothing can be promised of what
    /// arrives: the records come from another thread.
    pub fn take_errors(&self) -> Vec<reqloop::Error> {
        let mut errs: Vec<reqloop::Error> = Vec::new();
        let mut fuel: u64 = u64::MAX;
        loop
            decreases fuel,
        {
            if fuel == 0 {
                return errs;
            }
            fuel = fuel - 1;
            match chan::poll_channel(&self.errq) {
                chan::Polled::Item(e) => {
                    errs.push(e);
                },
                _ => {
                    return errs;
                },
            }
        }
    }

    /// Whether a result for the id stands in the cache right now.
    fn contains_cached(&self, id: u32) -> (r: bool)
        ensures
            r == self.completed_requests@.contains_key(id),
    {
        self.completed_requests.contains_key(&id)
    }
}

/// Whether the id stands in the vector.
#[verifier::loop_isolation(false)]
fn contains_id(ids: &Vec<u32>, id: u32) -> (r: bool)
    ensures
        r == ids@.contains(id),
{
    let mut i: usize = 0;
    while i < ids.len()
        invariant
            i <= ids@.len(),
            forall|k: int| 0 <= k < i ==> ids@[k] != id,
        decreases ids@.len() - i,
    {
        if ids[i] == id {
            assert(ids@.contains(id));
            return true;
        }
        i = i + 1;
    }
    false
}

/// Retire one outstanding id, if present.
#[verifier::loop_isolation(false)]
fn remove_outstanding(ids: &mut Vec<u32>, id: u32)
    requires
        model::distinct_ids(old(ids)@),
    ensures
        model::distinct_ids(final(ids)@),
        !final(ids)@.contains(id),
        forall|x: u32| x != id ==> (final(ids)@.contains(x) <==> old(ids)@.contains(x)),
{
    let ghost orig = ids@;
    let mut i: usize = 0;
    while i < ids.len()
        invariant
            ids@ == orig,
            model::distinct_ids(orig),
            i <= orig.len(),
            forall|k: int| 0 <= k < i ==> orig[k] != id,
        decreases orig.len() - i,
    {
        if ids[i] == id {
            let ghost at = i as int;
            ids.remove(i);
            proof {
                orig.remove_ensures(at);
                assert(!ids@.contains(id)) by {
                    if ids@.contains(id) {
                        let j = choose|j: int| 0 <= j < ids@.len() && ids@[j] == id;
                        if j < at {
                            assert(orig[j] == id);
                        } else {
                            assert(orig[j + 1] == id);
                        }
                    }
                }
                assert(model::distinct_ids(ids@)) by {
                    assert forall|a: int, b: int|
                        0 <= a < b < ids@.len() implies ids@[a] != ids@[b] by {
                        let oa = if a < at {
                            a
                        } else {
                            a + 1
                        };
                        let ob = if b < at {
                            b
                        } else {
                            b + 1
                        };
                        assert(ids@[a] == orig[oa]);
                        assert(ids@[b] == orig[ob]);
                    }
                }
                assert forall|x: u32| x != id implies (ids@.contains(x) <==> orig.contains(
                    x,
                )) by {
                    if ids@.contains(x) {
                        let j = choose|j: int| 0 <= j < ids@.len() && ids@[j] == x;
                        if j < at {
                            assert(orig[j] == x);
                        } else {
                            assert(orig[j + 1] == x);
                        }
                        assert(orig.contains(x));
                    }
                    if orig.contains(x) {
                        let j = choose|j: int| 0 <= j < orig.len() && orig[j] == x;
                        if j < at {
                            assert(ids@[j] == x);
                            assert(ids@.contains(x));
                        } else {
                            assert(j != at);
                            assert(ids@[j - 1] == x);
                            assert(ids@.contains(x));
                        }
                    }
                }
            }
            return ;
        }
        i = i + 1;
    }
    proof {
        assert(!ids@.contains(id)) by {
            if ids@.contains(id) {
                let j = choose|j: int| 0 <= j < ids@.len() && ids@[j] == id;
                assert(orig[j] != id);
            }
        }
    }
}

/// A correlation id that no outstanding handle carries: the random
/// candidate when it is free, else the smallest free id (some id no
/// larger than the outstanding count is free, by pigeonhole).
#[verifier::loop_isolation(false)]
fn fresh_id(candidate: u32, outstanding: &Vec<u32>) -> (id: u32)
    requires
        model::distinct_ids(outstanding@),
        outstanding@.len() < 0xFFFF_FFFF,
    ensures
        !outstanding@.contains(id),
{
    if !contains_id(outstanding, candidate) {
        return candidate;
    }
    proof {
        model::lemma_small_fresh_exists(outstanding@);
    }
    let mut i: u32 = 0;
    loop
        invariant
            outstanding@.len() < 0xFFFF_FFFF,
            forall|k: u32| k < i ==> outstanding@.contains(k),
            exists|v: u32| v as nat <= outstanding@.len() && !outstanding@.contains(v),
        decreases outstanding@.len() - i,
    {
        if !contains_id(outstanding, i) {
            return i;
        }
        proof {
            let v = choose|v: u32| v as nat <= outstanding@.len() && !outstanding@.contains(v);
            assert(v >= i) by {
                if v < i {
                    assert(outstanding@.contains(v));
                }
            }
            assert(v > i) by {
                if v == i {
                    assert(outstanding@.contains(i));
                }
            }
        }
        i = i + 1;
    }
}

/// The supervising loop, run by the worker's execution context: runs the
/// worker loop, reports a processing failure once on the error channel
/// and restarts the worker with the same channel ends, and returns when
/// the worker loop ends naturally (submission channel closed). The
/// returned record holds, per worker run, that run's answer log and the
/// failure that ended it, if any: every run answered well-formedly (each
/// published result carries its envelope's own id and the work-unit's
/// output), every run but the last ended in a failure that was handed to
/// the error channel, and a failed run's envelope under work is neither
/// retried nor requeued (it is absent from every log). The restart count
/// carries a fuel bound so that termination is provable.
#[verifier::loop_isolation(false)]
pub fn run_request_thread(
    inq: Receiver<Envelope>,
    outq: Sender<(u32, reqloop::Response)>,
    errq: Sender<reqloop::Error>,
) -> (runs: Ghost<Seq<(Seq<(Envelope, (u32, reqloop::Response))>, Option<reqloop::Error>)>>)
    ensures
        reqloop::supervised(runs@),
{
    let ghost mut runs_so_far: Seq<(Seq<(Envelope, (u32, reqloop::Response))>, Option<
        reqloop::Error,
    >)> = Seq::empty();
    let mut restarts: u64 = u64::MAX;
    loop
        invariant
            forall|i: int|
                0 <= i < runs_so_far.len() ==> reqloop::answered((#[trigger] runs_so_far[i]).0)
                    && runs_so_far[i].1 is Some,
        decreases restarts,
    {
        if restarts == 0 {
            return Ghost(runs_so_far);
        }
        restarts = restarts - 1;
        let (done, run_log) = reqloop::request_loop(&inq, &outq);
        match done {
            Ok(()) => {
                proof {
                    runs_so_far = runs_so_far.push((run_log@, None));
                }
                return Ghost(runs_so_far);
            },
            Err(e) => {
                let ghost ge = e;
                let _reported = chan::send_on(&errq, e);
                proof {
                    runs_so_far = runs_so_far.push((run_log@, Some(ge)));
                }
            },
        }
    }
}

} // verus!
