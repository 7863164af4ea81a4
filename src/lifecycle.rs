use vstd::prelude::*;

verus! {

/// What happens to a simple request, as far as its reply is concerned.
pub enum Lifecycle {
    /// The request is dispatched and its task registered.
    Start(usize),
    /// A cancel request names it.
    Cancel(usize),
    /// Its task completes.
    Finish(usize),
}

/// The ids of the requests that are running after `ev`.
pub open spec fn next_active(active: Set<usize>, ev: Lifecycle) -> Set<usize> {
    match ev {
        Lifecycle::Start(id) => active.insert(id),
        Lifecycle::Cancel(id) => active.remove(id),
        Lifecycle::Finish(id) => active.remove(id),
    }
}

/// The id that `ev` sends a reply for: only a task that completes while its
/// request is still registered replies.
pub open spec fn replied(active: Set<usize>, ev: Lifecycle) -> Option<usize> {
    match ev {
        Lifecycle::Finish(id) => if active.contains(id) { Some(id) } else { None },
        _ => None,
    }
}

/// The running requests after a sequence of events, and the ids replied to on the way.
pub open spec fn replay(evs: Seq<Lifecycle>) -> (Set<usize>, Seq<usize>)
    decreases evs.len(),
{
    if evs.len() == 0 {
        (Set::empty(), Seq::empty())
    } else {
        let (active, replies) = replay(evs.drop_last());
        (next_active(active, evs.last()), match replied(active, evs.last()) {
            Some(id) => replies.push(id),
            None => replies,
        })
    }
}

/// The id that `ev` starts, if it is a `Start`.
pub open spec fn start_id(ev: Lifecycle) -> Option<usize> {
    match ev {
        Lifecycle::Start(id) => Some(id),
        _ => None,
    }
}

/// No two `Start` events carry the same id.
pub open spec fn distinct_starts(evs: Seq<Lifecycle>) -> bool {
    forall|i: int, j: int|
        0 <= i < j < evs.len() && start_id(#[trigger] evs[i]) is Some ==> start_id(evs[i]) != start_id(
            #[trigger] evs[j],
        )
}

/// `id` is started somewhere in `evs`.
pub open spec fn started(evs: Seq<Lifecycle>, id: usize) -> bool {
    exists|i: int| 0 <= i < evs.len() && #[trigger] evs[i] == Lifecycle::Start(id)
}

proof fn lemma_replay(evs: Seq<Lifecycle>)
    requires
        distinct_starts(evs),
    ensures
        forall|id: usize| #[trigger] replay(evs).0.contains(id) ==> started(evs, id),
        forall|k: int|
            0 <= k < replay(evs).1.len() ==> !replay(evs).0.contains(#[trigger] replay(evs).1[k])
                && started(evs, replay(evs).1[k]),
        forall|a: int, b: int|
            0 <= a < b < replay(evs).1.len() ==> #[trigger] replay(evs).1[a] != #[trigger] replay(evs).1[b],
    decreases evs.len(),
{
    if evs.len() > 0 {
        let pre = evs.drop_last();
        assert(distinct_starts(pre)) by {
            assert forall|i: int, j: int| 0 <= i < j < pre.len() && start_id(#[trigger] pre[i]) is Some
                implies start_id(pre[i]) != start_id(#[trigger] pre[j]) by {
                assert(pre[i] == evs[i] && pre[j] == evs[j]);
            }
        }
        lemma_replay(pre);
        let (active, replies) = replay(pre);
        let ev = evs.last();
        let n = evs.len() - 1;
        assert forall|id: usize| started(pre, id) implies started(evs, id) by {
            let i = choose|i: int| 0 <= i < pre.len() && #[trigger] pre[i] == Lifecycle::Start(id);
            assert(evs[i] == pre[i]);
        }
        match ev {
            Lifecycle::Start(s) => {
                assert(evs[n] == Lifecycle::Start(s));
                assert forall|k: int| 0 <= k < replies.len() implies replies[k] != s by {
                    let id = replies[k];
                    let i = choose|i: int| 0 <= i < pre.len() && #[trigger] pre[i] == Lifecycle::Start(id);
                    assert(evs[i] == pre[i]);
                }
            },
            Lifecycle::Cancel(_) => {},
            Lifecycle::Finish(f) => {
                if active.contains(f) {
                    let r2 = replies.push(f);
                    assert forall|k: int| 0 <= k < replies.len() implies replies[k] != f by {}
                    assert forall|k: int| 0 <= k < r2.len() implies started(evs, #[trigger] r2[k]) by {
                        if k < replies.len() {
                            assert(r2[k] == replies[k]);
                        }
                    }
                }
            },
        }
    }
}

/// While request ids are not reused, each request is replied to at most once.
pub proof fn at_most_one_reply(evs: Seq<Lifecycle>)
    requires
        distinct_starts(evs),
    ensures
        replay(evs).1.no_duplicates(),
{
    lemma_replay(evs);
}

proof fn lemma_replies_grow(evs: Seq<Lifecycle>, n: int)
    requires
        0 <= n <= evs.len(),
    ensures
        replay(evs.take(n)).1.len() <= replay(evs).1.len(),
        replay(evs).1.take(replay(evs.take(n)).1.len() as int) == replay(evs.take(n)).1,
    decreases evs.len() - n,
{
    if n < evs.len() {
        lemma_replies_grow(evs, n + 1);
        let m = replay(evs.take(n)).1.len() as int;
        assert(evs.take(n + 1).drop_last() =~= evs.take(n));
        assert(replay(evs).1.take(m) =~= replay(evs.take(n + 1)).1.take(m));
    } else {
        assert(evs.take(n) =~= evs);
        assert(replay(evs).1.take(replay(evs).1.len() as int) =~= replay(evs).1);
    }
}

/// A request cancelled while it runs gets no reply afterwards.
pub proof fn cancelled_request_gets_no_reply(evs: Seq<Lifecycle>, k: int, id: usize)
    requires
        distinct_starts(evs),
        0 <= k < evs.len(),
        evs[k] == Lifecycle::Cancel(id),
        replay(evs.take(k)).0.contains(id),
    ensures
        forall|i: int|
            replay(evs.take(k + 1)).1.len() <= i < replay(evs).1.len() ==> #[trigger] replay(evs).1[i] != id,
{
    let cut = evs.take(k + 1);
    assert(cut.drop_last() =~= evs.take(k));
    lemma_replies_grow(evs, k + 1);
    lemma_replay(evs.take(k));
    let pre = evs.take(k);
    assert(started(pre, id));
    let j = choose|j: int| 0 <= j < pre.len() && #[trigger] pre[j] == Lifecycle::Start(id);
    assert(evs[j] == Lifecycle::Start(id));
    lemma_not_restarted(evs, k + 1, id, j);
    assert forall|i: int| replay(cut).1.len() <= i < replay(evs).1.len() implies #[trigger] replay(evs).1[i] != id by {
        lemma_no_reply_after(evs, k + 1, id, j, i);
    }
}

proof fn lemma_not_restarted(evs: Seq<Lifecycle>, n: int, id: usize, j: int)
    requires
        distinct_starts(evs),
        0 <= j < n <= evs.len(),
        evs[j] == Lifecycle::Start(id),
        !replay(evs.take(n)).0.contains(id),
    ensures
        forall|m: int| n <= m <= evs.len() ==> !#[trigger] replay(evs.take(m)).0.contains(id),
    decreases evs.len() - n,
{
    if n < evs.len() {
        assert(evs.take(n + 1).drop_last() =~= evs.take(n));
        assert(evs.take(n + 1).last() == evs[n]);
        assert(start_id(evs[j]) != start_id(evs[n]));
        lemma_not_restarted(evs, n + 1, id, j);
    }
}

proof fn lemma_no_reply_after(evs: Seq<Lifecycle>, n: int, id: usize, j: int, i: int)
    requires
        distinct_starts(evs),
        0 <= j < n <= evs.len(),
        forall|m: int| n <= m <= evs.len() ==> !#[trigger] replay(evs.take(m)).0.contains(id),
        replay(evs.take(n)).1.len() <= i < replay(evs).1.len(),
    ensures
        replay(evs).1[i] != id,
    decreases evs.len() - n,
{
    if n < evs.len() {
        let a = replay(evs.take(n));
        assert(evs.take(n + 1).drop_last() =~= evs.take(n));
        assert(evs.take(n + 1).last() == evs[n]);
        lemma_replies_grow(evs, n + 1);
        let b = replay(evs.take(n + 1));
        if i < b.1.len() {
            assert(b.1[i] == replay(evs).1.take(b.1.len() as int)[i]);
            assert(b.1[i] == evs[n]->Finish_0);
        } else {
            lemma_no_reply_after(evs, n + 1, id, j, i);
        }
    } else {
        assert(evs.take(n) =~= evs);
    }
}

} // verus!
