use std::collections::HashMap;

use wsgi_async_core::reqloop;
use wsgi_async_core::DispatchError;
use wsgi_async_core::Envelope;
use wsgi_async_core::RequestThread;

fn no_headers() -> HashMap<String, Vec<String>> {
    HashMap::new()
}

fn emit(ends: &wsgi_async_core::WorkerEnd, id: u32, body: &[u8]) {
    ends.outq
        .send((id, reqloop::Response { body: body.to_vec() }))
        .expect("result channel open");
}

#[test]
fn concrete_scenario() {
    let (mut rt, ends) = RequestThread::new();
    let h1 = rt
        .send("a".to_string(), no_headers(), b"A".to_vec())
        .expect("submit A");
    let h2 = rt
        .send("b".to_string(), no_headers(), b"B".to_vec())
        .expect("submit B");

    // Nothing emitted yet: not ready.
    assert!(rt.try_take(&h1).is_none());

    // The worker answers out of order: h2's result first.
    emit(&ends, h2.id, b"B-out");
    emit(&ends, h1.id, b"A-out");

    let a = rt.wait(&h1).expect("A's result arrived");
    assert_eq!(a.body, b"A-out".to_vec());

    // h2's result was cached by the wait call's drain; no further emission
    // is needed (the channel is empty now).
    let b = rt.try_take(&h2).expect("B's result was cached");
    assert_eq!(b.body, b"B-out".to_vec());
}

#[test]
fn poll_before_any_result_is_not_ready() {
    let (mut rt, _ends) = RequestThread::new();
    let h = rt
        .send("u".to_string(), no_headers(), b"p".to_vec())
        .expect("submit");
    assert!(rt.try_take(&h).is_none());
    assert!(rt.try_take(&h).is_none());
}

#[test]
fn poll_returns_then_consumes() {
    // At most one result per id: one emission is delivered exactly once.
    let (mut rt, ends) = RequestThread::new();
    let h = rt
        .send("u".to_string(), no_headers(), b"p".to_vec())
        .expect("submit");
    emit(&ends, h.id, b"out");
    let first = rt.try_take(&h).expect("ready");
    assert_eq!(first.body, b"out".to_vec());
    assert!(rt.try_take(&h).is_none());
}

#[test]
fn duplicate_emission_last_wins_once() {
    // Even if the channel somehow carried two results for one id, the
    // cache holds at most one entry for it, and one claim consumes it.
    let (mut rt, ends) = RequestThread::new();
    let h = rt
        .send("u".to_string(), no_headers(), b"p".to_vec())
        .expect("submit");
    emit(&ends, h.id, b"first");
    emit(&ends, h.id, b"second");
    let got = rt.try_take(&h).expect("ready");
    assert_eq!(got.body, b"second".to_vec());
    assert!(rt.try_take(&h).is_none());
}

#[test]
fn poll_wait_equivalence() {
    // For a result that has already arrived, poll and wait agree.
    let (mut rt_poll, ends_poll) = RequestThread::new();
    let hp = rt_poll
        .send("u".to_string(), no_headers(), b"p".to_vec())
        .expect("submit");
    emit(&ends_poll, hp.id, b"same");
    let via_poll = rt_poll.try_take(&hp).expect("ready");

    let (mut rt_wait, ends_wait) = RequestThread::new();
    let hw = rt_wait
        .send("u".to_string(), no_headers(), b"p".to_vec())
        .expect("submit");
    emit(&ends_wait, hw.id, b"same");
    let via_wait = rt_wait.wait(&hw).expect("ready");

    assert_eq!(via_poll.body, via_wait.body);
}

#[test]
fn cross_caller_drain() {
    // Caller A waits for id 1 while the worker emits for ids 2 then 1;
    // caller B's later poll for id 2 is served from the cache that A's
    // wait filled, with nothing left on the channel.
    let (mut rt, ends) = RequestThread::new();
    let h1 = rt
        .send("one".to_string(), no_headers(), b"1".to_vec())
        .expect("submit 1");
    let h2 = rt
        .send("two".to_string(), no_headers(), b"2".to_vec())
        .expect("submit 2");
    emit(&ends, h2.id, b"two-out");
    emit(&ends, h1.id, b"one-out");
    let a = rt.wait(&h1).expect("1 arrived");
    assert_eq!(a.body, b"one-out".to_vec());
    // Close the channel: whatever B sees now can only come from the cache.
    drop(ends);
    let b = rt.try_take(&h2).expect("2 was drained by A's wait");
    assert_eq!(b.body, b"two-out".to_vec());
}

#[test]
fn closed_channel_wait_terminates() {
    // The worker is gone with the request unanswered: wait must fail with
    // WorkerUnavailable in bounded time rather than hang.
    let (mut rt, ends) = RequestThread::new();
    let h = rt
        .send("u".to_string(), no_headers(), b"p".to_vec())
        .expect("submit");
    drop(ends);
    assert_eq!(rt.wait(&h), Err(DispatchError::WorkerUnavailable));
}

#[test]
fn send_after_worker_gone_is_channel_closed() {
    let (mut rt, ends) = RequestThread::new();
    drop(ends);
    let r = rt.send("u".to_string(), no_headers(), b"p".to_vec());
    assert_eq!(r.unwrap_err(), DispatchError::ChannelClosed);
}

#[test]
fn restart_isolation() {
    // Request X never gets a result (lost to a worker failure); an
    // unrelated request Y still succeeds, before and after X is given up.
    let (mut rt, ends) = RequestThread::new();
    let hx = rt
        .send("x".to_string(), no_headers(), b"x".to_vec())
        .expect("submit x");
    let hy = rt
        .send("y".to_string(), no_headers(), b"y".to_vec())
        .expect("submit y");
    emit(&ends, hy.id, b"y-out");
    let y = rt.wait(&hy).expect("y arrived");
    assert_eq!(y.body, b"y-out".to_vec());
    assert!(rt.try_take(&hx).is_none());
    drop(ends);
    assert_eq!(rt.wait(&hx), Err(DispatchError::WorkerUnavailable));
}

#[test]
fn unique_handles() {
    // No two simultaneously outstanding handles carry the same id.
    let (mut rt, _ends) = RequestThread::new();
    let mut ids: Vec<u32> = Vec::new();
    for n in 0..100u32 {
        let h = rt
            .send(format!("u{}", n), no_headers(), vec![n as u8])
            .expect("submit");
        ids.push(h.id);
    }
    let mut sorted = ids.clone();
    sorted.sort();
    sorted.dedup();
    assert_eq!(sorted.len(), ids.len());
}

#[test]
fn foreign_handle_is_never_ready() {
    let (mut rt, ends) = RequestThread::new();
    let h = rt
        .send("u".to_string(), no_headers(), b"p".to_vec())
        .expect("submit");
    let foreign = wsgi_async_core::Ref {
        id: h.id.wrapping_add(1),
    };
    emit(&ends, h.id, b"out");
    assert!(rt.try_take(&foreign).is_none());
    let own = rt.try_take(&h).expect("own result still there");
    assert_eq!(own.body, b"out".to_vec());
}

#[test]
fn perform_echoes_payload() {
    let env = Envelope {
        id: 7,
        url: "u".to_string(),
        headers: no_headers(),
        payload: b"payload".to_vec(),
    };
    let out = reqloop::perform(env).expect("placeholder work cannot fail");
    assert_eq!(out.body, b"payload".to_vec());
}

#[test]
fn worker_loop_answers_each_request_with_its_id() {
    let (env_tx, env_rx) = std::sync::mpsc::channel::<Envelope>();
    let (res_tx, res_rx) = std::sync::mpsc::channel::<(u32, reqloop::Response)>();
    env_tx
        .send(Envelope {
            id: 10,
            url: "a".to_string(),
            headers: no_headers(),
            payload: b"pa".to_vec(),
        })
        .unwrap();
    env_tx
        .send(Envelope {
            id: 11,
            url: "b".to_string(),
            headers: no_headers(),
            payload: b"pb".to_vec(),
        })
        .unwrap();
    drop(env_tx);
    let (r, _log) = reqloop::request_loop(&env_rx, &res_tx);
    assert!(r.is_ok());
    let (id_a, out_a) = res_rx.try_recv().unwrap();
    assert_eq!(id_a, 10);
    assert_eq!(out_a.body, b"pa".to_vec());
    let (id_b, out_b) = res_rx.try_recv().unwrap();
    assert_eq!(id_b, 11);
    assert_eq!(out_b.body, b"pb".to_vec());
    assert!(res_rx.try_recv().is_err());
}

#[test]
fn supervising_loop_ends_on_closed_channel() {
    let (mut rt, ends) = RequestThread::new();
    let h = rt
        .send("u".to_string(), no_headers(), b"echo".to_vec())
        .expect("submit");
    // Close the dispatcher's sending side so the worker loop, run here in
    // the test's own thread, processes the one envelope and returns.
    drop(rt);
    let _runs = wsgi_async_core::run_request_thread(ends.inq, ends.outq, ends.errq);
    let _ = h;
}

#[test]
fn end_to_end_through_worker_loop() {
    let (mut rt, ends) = RequestThread::new();
    let h = rt
        .send("u".to_string(), no_headers(), b"echo".to_vec())
        .expect("submit");
    // Play the worker by hand: take the queued envelope, process it with
    // the worker's unit of work, and publish the result.
    let env = ends.inq.try_recv().expect("envelope queued");
    let id = env.id;
    assert_eq!(id, h.id);
    let out = reqloop::perform(env).expect("placeholder work cannot fail");
    ends.outq.send((id, out)).unwrap();
    let got = rt.wait(&h).expect("result arrived");
    assert_eq!(got.body, b"echo".to_vec());
}

#[test]
fn no_worker_failures_reported() {
    let (rt, _ends) = RequestThread::new();
    assert!(rt.take_errors().is_empty());
}
