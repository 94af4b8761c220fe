//! Mathematical model of the completed-result cache and of a drain: a
//! batch of results taken off the result channel in order and folded into
//! the cache, a later entry overwriting an earlier one for the same id.

use vstd::prelude::*;
use crate::DispatchError;
use crate::Response;

verus! {

/// The ids in `s` are pairwise distinct.
pub open spec fn distinct_ids(s: Seq<u32>) -> bool {
    forall|i: int, j: int| 0 <= i < j < s.len() ==> s[i] != s[j]
}

/// The cache after the batch is folded in, in order.
pub open spec fn absorbed(
    cache: Map<u32, Response>,
    batch: Seq<(u32, Response)>,
) -> Map<u32, Response>
    decreases batch.len(),
{
    if batch.len() == 0 {
        cache
    } else {
        absorbed(cache, batch.drop_last()).insert(batch.last().0, batch.last().1)
    }
}

/// Whether the batch carries some result for the id.
pub open spec fn batch_has(batch: Seq<(u32, Response)>, id: u32) -> bool {
    exists|i: int| 0 <= i < batch.len() && batch[i].0 == id
}

/// What a non-blocking take yields for the id: the batch is drained into
/// the cache, then the matching entry, if any, is claimed.
pub open spec fn poll_outcome(
    cache: Map<u32, Response>,
    batch: Seq<(u32, Response)>,
    id: u32,
) -> Option<Response> {
    if absorbed(cache, batch).contains_key(id) {
        Some(absorbed(cache, batch)[id])
    } else {
        None
    }
}

/// What one non-blocking take does to the cache: some batch is drained
/// into it, the matching entry (if any) is claimed and removed, and the
/// claimed value is exactly the poll outcome over that batch.
pub open spec fn take_step(
    pre: Map<u32, Response>,
    post: Map<u32, Response>,
    batch: Seq<(u32, Response)>,
    id: u32,
    res: Option<Response>,
) -> bool {
    res == poll_outcome(pre, batch, id) && post == absorbed(pre, batch).remove(id)
}

/// What one blocking wait does to the cache: some batch (the non-blocking
/// drain plus everything received while blocking) is drained into it; on
/// Ok the matching entry was seen, claimed and removed; on failure the id
/// was never seen and nothing was claimed.
pub open spec fn wait_step(
    pre: Map<u32, Response>,
    post: Map<u32, Response>,
    batch: Seq<(u32, Response)>,
    id: u32,
    res: Result<Response, DispatchError>,
) -> bool {
    match res {
        Ok(v) => poll_outcome(pre, batch, id) == Some(v) && post == absorbed(pre, batch).remove(
            id,
        ),
        Err(e) => e is WorkerUnavailable && !absorbed(pre, batch).contains_key(id) && post
            == absorbed(pre, batch),
    }
}

/// A fold over a batch reaches exactly the keys of the cache and the ids
/// the batch carries.
pub proof fn lemma_absorbed_key(cache: Map<u32, Response>, batch: Seq<(u32, Response)>, id: u32)
    ensures
        absorbed(cache, batch).contains_key(id) <==> (cache.contains_key(id) || batch_has(
            batch,
            id,
        )),
    decreases batch.len(),
{
    if batch.len() == 0 {
        assert(!batch_has(batch, id));
    } else {
        let head = batch.drop_last();
        lemma_absorbed_key(cache, head, id);
        if batch.last().0 == id {
            assert(batch[batch.len() - 1].0 == id);
        } else {
            if batch_has(head, id) {
                let i = choose|i: int| 0 <= i < head.len() && head[i].0 == id;
                assert(batch[i].0 == id);
            }
            if batch_has(batch, id) {
                let i = choose|i: int| 0 <= i < batch.len() && batch[i].0 == id;
                assert(i < batch.len() - 1);
                assert(head[i].0 == id);
            }
        }
    }
}

/// A batch that carries nothing for the id leaves the id's entry alone.
pub proof fn lemma_absorbed_untouched(
    cache: Map<u32, Response>,
    batch: Seq<(u32, Response)>,
    id: u32,
)
    requires
        !batch_has(batch, id),
    ensures
        absorbed(cache, batch).contains_key(id) == cache.contains_key(id),
        cache.contains_key(id) ==> absorbed(cache, batch)[id] == cache[id],
    decreases batch.len(),
{
    if batch.len() > 0 {
        let head = batch.drop_last();
        assert(!batch_has(head, id)) by {
            if batch_has(head, id) {
                let i = choose|i: int| 0 <= i < head.len() && head[i].0 == id;
                assert(batch[i].0 == id);
            }
        }
        lemma_absorbed_untouched(cache, head, id);
        assert(batch[batch.len() - 1].0 != id);
    }
}

/// At most one result per id: a claimed id stays out of the cache under
/// any further drain whose batch carries nothing for it. Together with the
/// map model (one entry per key) this is the cache's dedup discipline: an
/// id is cached at most once, and once claimed it cannot reappear unless
/// the channel emits it anew.
pub proof fn lemma_claimed_stays_gone(
    cache: Map<u32, Response>,
    batch: Seq<(u32, Response)>,
    id: u32,
)
    requires
        !batch_has(batch, id),
    ensures
        !absorbed(cache.remove(id), batch).contains_key(id),
{
    lemma_absorbed_untouched(cache.remove(id), batch, id);
}

/// Poll/wait equivalence: for a request whose result has already arrived,
/// a non-blocking take and a blocking wait that start from the same cache
/// and drain the same batch return the same value and leave the same
/// cache behind.
pub proof fn lemma_poll_wait_equivalence(
    pre: Map<u32, Response>,
    post_poll: Map<u32, Response>,
    post_wait: Map<u32, Response>,
    batch: Seq<(u32, Response)>,
    id: u32,
    res_poll: Option<Response>,
    res_wait: Result<Response, DispatchError>,
)
    requires
        absorbed(pre, batch).contains_key(id),
        take_step(pre, post_poll, batch, id, res_poll),
        wait_step(pre, post_wait, batch, id, res_wait),
    ensures
        res_poll == Some(absorbed(pre, batch)[id]),
        res_wait == Ok::<Response, DispatchError>(absorbed(pre, batch)[id]),
        post_poll == post_wait,
{
}

/// Cross-caller drain: one caller's drain of a batch and claim of its own
/// id leaves a result the batch carried for a different id in the cache,
/// where a later poll with nothing further to drain finds it.
pub proof fn lemma_cross_caller_drain(
    cache: Map<u32, Response>,
    batch: Seq<(u32, Response)>,
    claimer: u32,
    other: u32,
)
    requires
        claimer != other,
        batch_has(batch, other),
    ensures
        absorbed(cache, batch).remove(claimer).contains_key(other),
        poll_outcome(absorbed(cache, batch).remove(claimer), Seq::empty(), other) == Some(
            absorbed(cache, batch)[other],
        ),
{
    lemma_absorbed_key(cache, batch, other);
    assert(absorbed(absorbed(cache, batch).remove(claimer), Seq::empty()) == absorbed(
        cache,
        batch,
    ).remove(claimer));
}

/// Restart isolation: what a poll yields for one id does not depend on
/// another id's fate. A result emitted for the other id, or the other
/// id's entry leaving the cache, changes nothing for this one.
pub proof fn lemma_restart_isolation(
    cache: Map<u32, Response>,
    batch: Seq<(u32, Response)>,
    failed: u32,
    unrelated: u32,
    v: Response,
)
    requires
        failed != unrelated,
    ensures
        poll_outcome(cache, batch.push((failed, v)), unrelated) == poll_outcome(
            cache,
            batch,
            unrelated,
        ),
        poll_outcome(cache.remove(failed), batch, unrelated) == poll_outcome(
            cache,
            batch,
            unrelated,
        ),
{
    assert(batch.push((failed, v)).drop_last() =~= batch);
    lemma_absorbed_remove_other(cache, batch, failed, unrelated);
}

/// Dropping one id's cache entry is invisible to lookups of another id.
proof fn lemma_absorbed_remove_other(
    cache: Map<u32, Response>,
    batch: Seq<(u32, Response)>,
    dropped: u32,
    kept: u32,
)
    requires
        dropped != kept,
    ensures
        absorbed(cache.remove(dropped), batch).contains_key(kept) == absorbed(
            cache,
            batch,
        ).contains_key(kept),
        absorbed(cache, batch).contains_key(kept) ==> absorbed(cache.remove(dropped), batch)[kept]
            == absorbed(cache, batch)[kept],
    decreases batch.len(),
{
    if batch.len() > 0 {
        lemma_absorbed_remove_other(cache, batch.drop_last(), dropped, kept);
    }
}

/// Pigeonhole for id generation: fewer than u32::MAX outstanding ids,
/// all distinct, leave some id between 0 and the count free.
pub proof fn lemma_small_fresh_exists(s: Seq<u32>)
    requires
        distinct_ids(s),
        s.len() < 0xFFFF_FFFF,
    ensures
        exists|v: u32| v as nat <= s.len() && !s.contains(v),
    decreases s.len(),
{
    if s.len() == 0 {
        assert(0u32 as nat <= s.len() && !s.contains(0u32));
    } else {
        let bound: u32 = s.len() as u32;
        if !s.contains(bound) {
            assert(bound as nat <= s.len() && !s.contains(bound));
        } else {
            let k = choose|k: int| 0 <= k < s.len() && s[k] == bound;
            let s2 = s.remove(k);
            s.remove_ensures(k);
            assert(distinct_ids(s2)) by {
                assert forall|i: int, j: int| 0 <= i < j < s2.len() implies s2[i] != s2[j] by {
                    if i < k {
                        assert(s2[i] == s[i]);
                    } else {
                        assert(s2[i] == s[i + 1]);
                    }
                    if j < k {
                        assert(s2[j] == s[j]);
                    } else {
                        assert(s2[j] == s[j + 1]);
                    }
                }
            }
            lemma_small_fresh_exists(s2);
            let v = choose|v: u32| v as nat <= s2.len() && !s2.contains(v);
            assert(v != bound);
            assert(!s.contains(v)) by {
                if s.contains(v) {
                    let j = choose|j: int| 0 <= j < s.len() && s[j] == v;
                    if j < k {
                        assert(s2[j] == s[j]);
                    } else {
                        assert(j != k);
                        assert(s2[j - 1] == s[j]);
                    }
                    assert(s2.contains(v));
                }
            }
            assert(v as nat <= s.len() && !s.contains(v));
        }
    }
}

} // verus!
