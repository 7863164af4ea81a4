use vstd::prelude::*;
use crate::types::{Progress, StreamEvent};

verus! {

/// What a bulk operation does once one of its items has failed.
#[derive(Clone, Copy, Debug, PartialEq, Eq, Structural)]
pub enum ErrorPolicy {
    /// The operation is one unit: the first failure ends the stream.
    Stop,
    /// Each item stands alone: failures are reported and the rest goes on.
    Continue,
}

/// Interval between progress events, in milliseconds, when none is asked for.
pub const DEFAULT_PROGRESS_INTERVAL: u64 = 1000;

/// One item produced by a bulk operation, with the time (in milliseconds)
/// at which it came.
#[derive(Debug)]
pub struct Timed {
    pub at: u64,
    pub item: Result<Progress, String>,
}

/// The state of one progress stream: its policy and interval, when it last
/// emitted, and whether it has stopped consuming items.
#[derive(Clone, Copy, Debug, PartialEq, Eq)]
pub struct Emitter {
    pub policy: ErrorPolicy,
    pub interval: u64,
    pub last_emit: Option<u64>,
    pub stopped: bool,
}

/// A progress record passes the throttle: it is the first event, the
/// interval has passed since the last one, or it reports completion.
pub open spec fn passes_throttle(e: Emitter, at: u64, p: Progress) -> bool {
    match e.last_emit {
        None => true,
        Some(last) => p.is_complete() || at - last >= e.interval,
    }
}

/// The next state of the stream, and what it emits, for one item.
pub open spec fn step(e: Emitter, at: u64, item: Result<Progress, String>) -> (Emitter, Option<StreamEvent>) {
    if e.stopped {
        (e, None)
    } else {
        match item {
            Ok(p) => if passes_throttle(e, at, p) {
                (Emitter { last_emit: Some(at), ..e }, Some(StreamEvent::Progress(p)))
            } else {
                (e, None)
            },
            Err(m) => (
                Emitter { last_emit: Some(at), stopped: e.policy == ErrorPolicy::Stop, ..e },
                Some(StreamEvent::Failure(m)),
            ),
        }
    }
}

/// The state after a sequence of items, and the events emitted on the way.
pub open spec fn run(e: Emitter, items: Seq<Timed>) -> (Emitter, Seq<StreamEvent>)
    decreases items.len(),
{
    if items.len() == 0 {
        (e, Seq::empty())
    } else {
        let (e1, evs) = run(e, items.drop_last());
        let (e2, ev) = step(e1, items.last().at, items.last().item);
        (e2, match ev {
            Some(x) => evs.push(x),
            None => evs,
        })
    }
}

/// The whole stream for a sequence of items: the events, then the terminal marker.
pub open spec fn stream(e: Emitter, items: Seq<Timed>) -> Seq<StreamEvent> {
    run(e, items).1.push(StreamEvent::Terminal)
}

/// A stream that has not emitted yet.
pub open spec fn fresh(e: Emitter, policy: ErrorPolicy, interval: u64) -> bool {
    e.policy == policy && e.interval == interval && e.last_emit is None && !e.stopped
}

impl Emitter {
    pub fn new(policy: ErrorPolicy, interval: u64) -> (r: Emitter)
        ensures
            fresh(r, policy, interval),
    {
        Emitter { policy, interval, last_emit: None, stopped: false }
    }

    /// The stream of a copy: one unit, throttled by the interval asked for.
    pub fn for_copy(progress_interval: Option<u64>) -> (r: Emitter)
        ensures
            fresh(r, ErrorPolicy::Stop, match progress_interval {
                Some(i) => i,
                None => DEFAULT_PROGRESS_INTERVAL,
            }),
    {
        let interval = match progress_interval {
            Some(i) => i,
            None => DEFAULT_PROGRESS_INTERVAL,
        };
        Emitter::new(ErrorPolicy::Stop, interval)
    }

    /// The stream of a move or delete of several items: every item is reported.
    pub fn for_items() -> (r: Emitter)
        ensures
            fresh(r, ErrorPolicy::Continue, 0),
    {
        Emitter::new(ErrorPolicy::Continue, 0)
    }

    /// Takes one item; returns the event to emit for it, if any.
    pub fn on_item(&mut self, at: u64, item: &Result<Progress, String>) -> (r: Option<StreamEvent>)
        ensures
            (*final(self), r) == step(*old(self), at, *item),
    {
        if self.stopped {
            return None;
        }
        match item {
            Ok(p) => {
                let pass = match self.last_emit {
                    None => true,
                    Some(last) => p.done == p.total || (at >= last && at - last >= self.interval),
                };
                if pass {
                    self.last_emit = Some(at);
                    Some(StreamEvent::Progress(*p))
                } else {
                    None
                }
            },
            Err(m) => {
                self.last_emit = Some(at);
                if self.policy == ErrorPolicy::Stop {
                    self.stopped = true;
                }
                Some(StreamEvent::Failure(m.clone()))
            },
        }
    }

    /// The stream takes no more items.
    pub fn is_stopped(&self) -> (r: bool)
        ensures
            r == self.stopped,
    {
        self.stopped
    }

    /// Ends the stream: its one terminal marker.
    pub fn finish(self) -> (r: StreamEvent)
        ensures
            r == StreamEvent::Terminal,
    {
        StreamEvent::Terminal
    }

    /// The whole stream for `items`, given all at once.
    pub fn run_all(self, items: &Vec<Timed>) -> (r: Vec<StreamEvent>)
        ensures
            r@ == stream(self, items@),
    {
        let mut e = self;
        let mut events: Vec<StreamEvent> = Vec::new();
        let mut i: usize = 0;
        while i < items.len()
            invariant
                i <= items@.len(),
                (e, events@) == run(self, items@.take(i as int)),
            decreases items@.len() - i,
        {
            let ghost before = items@.take(i as int);
            let t = &items[i];
            let ev = e.on_item(t.at, &t.item);
            match ev {
                Some(x) => events.push(x),
                None => {},
            }
            proof {
                let next = items@.take(i + 1);
                assert(next.drop_last() =~= before);
                assert(next.last() == items@[i as int]);
            }
            i = i + 1;
        }
        assert(items@.take(items@.len() as int) =~= items@);
        let end = e.finish();
        events.push(end);
        events
    }
}

/// The interval of a copy stream: the one asked for, or the default.
pub open spec fn copy_interval(progress_interval: Option<u64>) -> u64 {
    match progress_interval {
        Some(i) => i,
        None => DEFAULT_PROGRESS_INTERVAL,
    }
}

/// The stream of a copy of `items`: throttled, and the first failure ends it.
pub fn copy(progress_interval: Option<u64>, items: &Vec<Timed>) -> (r: Vec<StreamEvent>)
    ensures
        forall|e: Emitter| fresh(e, ErrorPolicy::Stop, copy_interval(progress_interval))
            ==> r@ == stream(e, items@),
{
    Emitter::for_copy(progress_interval).run_all(items)
}

/// The stream of a move of several items: every item is reported, failures too.
pub fn mv(items: &Vec<Timed>) -> (r: Vec<StreamEvent>)
    ensures
        forall|e: Emitter| fresh(e, ErrorPolicy::Continue, 0) ==> r@ == stream(e, items@),
{
    Emitter::for_items().run_all(items)
}

/// The stream of a delete of several items: every item is reported, failures too.
pub fn delete(items: &Vec<Timed>) -> (r: Vec<StreamEvent>)
    ensures
        forall|e: Emitter| fresh(e, ErrorPolicy::Continue, 0) ==> r@ == stream(e, items@),
{
    Emitter::for_items().run_all(items)
}

/// The times of the items never go back.
pub open spec fn in_time_order(items: Seq<Timed>) -> bool {
    forall|i: int, j: int| 0 <= i <= j < items.len() ==> #[trigger] items[i].at <= #[trigger] items[j].at
}

/// Number of progress events among `evs`.
pub open spec fn progress_count(evs: Seq<StreamEvent>) -> nat
    decreases evs.len(),
{
    if evs.len() == 0 {
        0
    } else {
        progress_count(evs.drop_last()) + if evs.last() is Progress { 1nat } else { 0nat }
    }
}

/// Number of items that report a completed unit.
pub open spec fn complete_count(items: Seq<Timed>) -> nat
    decreases items.len(),
{
    if items.len() == 0 {
        0
    } else {
        complete_count(items.drop_last()) + match items.last().item {
            Ok(p) => if p.is_complete() { 1nat } else { 0nat },
            Err(_) => 0nat,
        }
    }
}

/// What a move or delete reports for one item.
pub open spec fn item_event(t: Timed) -> StreamEvent {
    match t.item {
        Ok(p) => StreamEvent::Progress(p),
        Err(m) => StreamEvent::Failure(m),
    }
}

proof fn lemma_run_has_no_terminal(e: Emitter, items: Seq<Timed>)
    ensures
        forall|i: int| 0 <= i < run(e, items).1.len() ==> run(e, items).1[i] != StreamEvent::Terminal,
    decreases items.len(),
{
    if items.len() > 0 {
        lemma_run_has_no_terminal(e, items.drop_last());
    }
}

/// A stream ends with exactly one terminal marker, and holds no other.
pub proof fn stream_ends_once(e: Emitter, items: Seq<Timed>)
    ensures
        stream(e, items).last() == StreamEvent::Terminal,
        forall|i: int| 0 <= i < stream(e, items).len() - 1 ==> stream(e, items)[i] != StreamEvent::Terminal,
{
    lemma_run_has_no_terminal(e, items);
}

/// Progress events that a stream may emit: one, plus one for each further
/// interval that has passed since the first item.
pub open spec fn throttle_budget(e: Emitter, first_at: u64) -> int {
    match e.last_emit {
        None => 0,
        Some(last) => 1 + (last - first_at) / (e.interval as int),
    }
}

proof fn lemma_progress_budget(e: Emitter, items: Seq<Timed>)
    requires
        e.last_emit is None,
        e.interval > 0,
        in_time_order(items),
    ensures
        run(e, items).0.interval == e.interval,
        run(e, items).0.last_emit matches Some(last) ==> items.len() > 0 && items[0].at <= last
            <= items.last().at,
        items.len() > 0 ==> progress_count(run(e, items).1) <= complete_count(items)
            + throttle_budget(run(e, items).0, items[0].at),
    decreases items.len(),
{
    if items.len() > 0 {
        let prefix = items.drop_last();
        lemma_progress_budget(e, prefix);
        let (e1, evs) = run(e, prefix);
        let x = items.last();
        let (e2, ev) = step(e1, x.at, x.item);
        let t0 = items[0].at;
        let iv = e.interval as int;
        assert(t0 <= x.at);
        if prefix.len() > 0 {
            assert(prefix[0] == items[0]);
            assert(prefix.last() == items[items.len() - 2]);
        }
        let b1 = if prefix.len() > 0 { throttle_budget(e1, t0) } else { 0 };
        assert(progress_count(evs) <= complete_count(prefix) + b1);
        match ev {
            Some(y) => {
                assert(evs.push(y).drop_last() =~= evs);
            },
            None => {},
        }
        match e2.last_emit {
            Some(l2) => {
                match e1.last_emit {
                    Some(l1) => {
                        if l1 != l2 {
                            assert(l2 == x.at);
                            vstd::arithmetic::div_mod::lemma_div_is_ordered(l1 - t0, l2 - t0, iv);
                            match x.item {
                                Ok(p) => {
                                    if !p.is_complete() {
                                        assert(x.at - l1 >= iv);
                                        vstd::arithmetic::div_mod::lemma_div_plus_one(l1 - t0, iv);
                                        vstd::arithmetic::div_mod::lemma_div_is_ordered(iv + (l1 - t0), l2 - t0, iv);
                                    }
                                },
                                Err(_) => {},
                            }
                        }
                    },
                    None => {
                        vstd::arithmetic::div_mod::lemma_div_is_ordered(0, l2 - t0, iv);
                    },
                }
            },
            None => {},
        }
    }
}

/// A throttled stream emits at most one progress event for the first item,
/// one for each full interval between the first item and the last, and one
/// for each item that reports completion.
pub proof fn throttled_progress_bound(e: Emitter, items: Seq<Timed>)
    requires
        e.last_emit is None,
        e.interval > 0,
        items.len() > 0,
        in_time_order(items),
    ensures
        progress_count(stream(e, items)) <= complete_count(items) + 1
            + (items.last().at - items[0].at) / (e.interval as int),
{
    lemma_progress_budget(e, items);
    let (e2, evs) = run(e, items);
    let s = stream(e, items);
    assert(s.drop_last() =~= evs);
    match e2.last_emit {
        Some(l) => {
            vstd::arithmetic::div_mod::lemma_div_is_ordered(l - items[0].at, items.last().at - items[0].at, e.interval as int);
        },
        None => {
            vstd::arithmetic::div_mod::lemma_div_is_ordered(0, items.last().at - items[0].at, e.interval as int);
        },
    }
}

proof fn lemma_run_keeps_config(e: Emitter, items: Seq<Timed>)
    ensures
        run(e, items).0.policy == e.policy,
        run(e, items).0.interval == e.interval,
        run(e, items).1.len() <= items.len(),
    decreases items.len(),
{
    if items.len() > 0 {
        lemma_run_keeps_config(e, items.drop_last());
    }
}

proof fn lemma_no_failure_keeps_running(e: Emitter, items: Seq<Timed>)
    requires
        !e.stopped,
        forall|i: int| 0 <= i < items.len() ==> #[trigger] items[i].item is Ok,
    ensures
        !run(e, items).0.stopped,
    decreases items.len(),
{
    if items.len() > 0 {
        let prefix = items.drop_last();
        assert forall|i: int| 0 <= i < prefix.len() implies #[trigger] prefix[i].item is Ok by {
            assert(prefix[i] == items[i]);
        }
        lemma_no_failure_keeps_running(e, prefix);
        assert(items.last().item is Ok);
    }
}

/// When no item fails and the last one reports completion, the last event
/// before the terminal marker is that completion: throttling never drops it.
pub proof fn completion_is_never_dropped(e: Emitter, items: Seq<Timed>, p: Progress)
    requires
        !e.stopped,
        items.len() > 0,
        forall|i: int| 0 <= i < items.len() ==> #[trigger] items[i].item is Ok,
        items.last().item == Ok::<Progress, String>(p),
        p.is_complete(),
    ensures
        stream(e, items)[stream(e, items).len() - 2] == StreamEvent::Progress(p),
{
    let prefix = items.drop_last();
    assert forall|i: int| 0 <= i < prefix.len() implies #[trigger] prefix[i].item is Ok by {
        assert(prefix[i] == items[i]);
    }
    lemma_no_failure_keeps_running(e, prefix);
    let evs = run(e, prefix).1;
    assert(run(e, items).1 == evs.push(StreamEvent::Progress(p)));
}

proof fn lemma_stopped_stays(e: Emitter, items: Seq<Timed>, k: int, n: int)
    requires
        0 <= k <= n <= items.len(),
        run(e, items.take(k)).0.stopped,
    ensures
        run(e, items.take(n)) == run(e, items.take(k)),
    decreases n - k,
{
    if n > k {
        lemma_stopped_stays(e, items, k, n - 1);
        assert(items.take(n).drop_last() =~= items.take(n - 1));
    }
}

/// A copy ends at its first failure: the events of the items before it, the
/// failure, and the terminal marker; nothing of the items after it.
pub proof fn copy_stops_at_first_failure(e: Emitter, items: Seq<Timed>, k: int, m: String)
    requires
        e.policy == ErrorPolicy::Stop,
        !e.stopped,
        0 <= k < items.len(),
        items[k].item == Err::<Progress, String>(m),
        forall|j: int| 0 <= j < k ==> #[trigger] items[j].item is Ok,
    ensures
        stream(e, items) == run(e, items.take(k)).1.push(StreamEvent::Failure(m)).push(
            StreamEvent::Terminal,
        ),
        progress_count(run(e, items.take(k)).1) <= k,
{
    let before = items.take(k);
    assert forall|j: int| 0 <= j < before.len() implies #[trigger] before[j].item is Ok by {
        assert(before[j] == items[j]);
    }
    lemma_no_failure_keeps_running(e, before);
    lemma_run_keeps_config(e, before);
    assert(items.take(k + 1).drop_last() =~= before);
    assert(items.take(k + 1).last() == items[k]);
    lemma_stopped_stays(e, items, k + 1, items.len() as int);
    assert(items.take(items.len() as int) =~= items);
    lemma_progress_count_le_len(run(e, before).1);
}

proof fn lemma_progress_count_le_len(evs: Seq<StreamEvent>)
    ensures
        progress_count(evs) <= evs.len(),
    decreases evs.len(),
{
    if evs.len() > 0 {
        lemma_progress_count_le_len(evs.drop_last());
    }
}

proof fn lemma_every_item_reported(e: Emitter, items: Seq<Timed>)
    requires
        e.policy == ErrorPolicy::Continue,
        e.interval == 0,
        e.last_emit is None,
        !e.stopped,
        in_time_order(items),
    ensures
        run(e, items).1 == items.map_values(|t: Timed| item_event(t)),
        !run(e, items).0.stopped,
        run(e, items).0.last_emit matches Some(last) ==> items.len() > 0 && last <= items.last().at,
    decreases items.len(),
{
    lemma_run_keeps_config(e, items);
    if items.len() > 0 {
        let prefix = items.drop_last();
        lemma_every_item_reported(e, prefix);
        lemma_run_keeps_config(e, prefix);
        if prefix.len() > 0 {
            assert(prefix.last() == items[items.len() - 2]);
        }
        assert(items.map_values(|t: Timed| item_event(t)) =~= prefix.map_values(|t: Timed| item_event(t)).push(
            item_event(items.last()),
        ));
    }
}

/// A move or delete reports every item, in order, then the terminal marker.
pub proof fn every_item_is_reported(e: Emitter, items: Seq<Timed>)
    requires
        fresh(e, ErrorPolicy::Continue, 0),
        in_time_order(items),
    ensures
        stream(e, items) == items.map_values(|t: Timed| item_event(t)).push(StreamEvent::Terminal),
{
    lemma_every_item_reported(e, items);
}

} // verus!
