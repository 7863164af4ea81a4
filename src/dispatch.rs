use vstd::prelude::*;
use crate::emitter::{copy_interval, fresh, Emitter, ErrorPolicy};
use crate::lifecycle::{next_active, replied, Lifecycle};
use crate::registry::Registry;
use crate::types::{rpc_result_of, Function, Request, Response, RpcResult, SubscriptionId};
use crate::utils::{invalid_subscription, invalid_subscription_message, ErrorCode, RpcError};

verus! {

/// Length of a generated subscription id.
pub const SUBSCRIPTION_ID_LEN: usize = 16;

/// Tries at drawing a subscription id that is not in use.
pub const SUBSCRIPTION_ID_DRAWS: usize = 4;

/// An ASCII letter or digit.
pub open spec fn is_alphanumeric(c: char) -> bool {
    ('a' <= c && c <= 'z') || ('A' <= c && c <= 'Z') || ('0' <= c && c <= '9')
}

/// Relies on jsonrpc_pubsub's `RandomStringIdProvider::next_id`, made with its
/// default length: a random string of 16 ASCII letters and digits.
#[verifier::external_body]
fn random_subscription_id() -> (r: String)
    ensures
        r@.len() == SUBSCRIPTION_ID_LEN,
        forall|i: int| 0 <= i < r@.len() ==> is_alphanumeric(#[trigger] r@[i]),
{
    let provider = jsonrpc_pubsub::manager::RandomStringIdProvider::new();
    jsonrpc_pubsub::manager::IdProvider::next_id(&provider)
}

/// Message of the reply to a request whose id is already running.
pub open spec fn duplicate_id_message() -> Seq<char> {
    "Duplicate request id."@
}

/// What the caller does with a request once the dispatcher has decided.
#[derive(Debug, PartialEq, Eq)]
pub enum Plan<H> {
    /// Perform the simple operation, registering its task under the request id.
    Perform(Request),
    /// Run the bulk operation as a stream of events, throttled by the emitter.
    Stream(Request, Emitter),
    /// Send this reply now, and abort the handle if there is one.
    Reply(Response<bool>, Option<H>),
}

/// The registries of running work: simple requests by their id, streams by
/// their subscription id.
pub struct Dispatcher<H> {
    requests: Registry<usize, H>,
    subscriptions: Registry<String, H>,
}

impl<H> Dispatcher<H> {
    /// Running simple requests, by request id.
    pub closed spec fn requests(&self) -> Map<usize, H> {
        self.requests@
    }

    /// Running streams, by subscription id.
    pub closed spec fn subscriptions(&self) -> Map<Seq<char>, H> {
        self.subscriptions@
    }

    pub closed spec fn wf(&self) -> bool {
        self.requests.wf() && self.subscriptions.wf()
    }

    pub fn new() -> (r: Self)
        ensures
            r.wf(),
            r.requests() == Map::<usize, H>::empty(),
            r.subscriptions() == Map::<Seq<char>, H>::empty(),
    {
        Dispatcher { requests: Registry::new(), subscriptions: Registry::new() }
    }

    /// Registers the task of a dispatched simple request. An id that is
    /// already running is refused and the handle given back.
    pub fn start_request(&mut self, id: usize, handle: H) -> (r: Result<(), H>)
        requires
            old(self).wf(),
        ensures
            final(self).wf(),
            r is Ok <==> !old(self).requests().contains_key(id),
            r is Ok ==> final(self).requests() == old(self).requests().insert(id, handle),
            r matches Err(h) ==> h == handle && final(self).requests() == old(self).requests(),
            final(self).requests().dom() == next_active(old(self).requests().dom(), Lifecycle::Start(id)),
            final(self).subscriptions() == old(self).subscriptions(),
    {
        let r = self.requests.register(id, handle);
        proof {
            if r is Err {
                assert(self.requests@.dom() =~= old(self).requests@.dom().insert(id));
            }
        }
        r
    }

    /// The task of request `id` has completed with `outcome`. Its reply is
    /// sent only if the request is still registered: a cancelled request
    /// gets none.
    pub fn finish_request<T>(&mut self, id: usize, outcome: Result<T, String>) -> (r: Option<Response<T>>)
        requires
            old(self).wf(),
        ensures
            final(self).wf(),
            final(self).requests() == old(self).requests().remove(id),
            final(self).subscriptions() == old(self).subscriptions(),
            r is Some <==> old(self).requests().contains_key(id),
            r matches Some(resp) ==> resp.id == id && resp.res == rpc_result_of(outcome),
            final(self).requests().dom() == next_active(old(self).requests().dom(), Lifecycle::Finish(id)),
            r is Some <==> replied(old(self).requests().dom(), Lifecycle::Finish(id)) == Some(id),
    {
        let removed = self.requests.remove(&id);
        match removed {
            Some(_) => Some(Response::new(id, RpcResult::from(outcome))),
            None => None,
        }
    }

    /// Cancels request `target`: its entry goes, and its handle comes back to
    /// be aborted. The reply to the cancel request itself is success, whether
    /// or not `target` was running.
    pub fn cancel_request(&mut self, req_id: usize, target: usize) -> (r: (Response<bool>, Option<H>))
        requires
            old(self).wf(),
        ensures
            final(self).wf(),
            r.0.id == req_id,
            r.0.res == RpcResult::<bool>::Done(true),
            r.1 is Some <==> old(self).requests().contains_key(target),
            r.1 matches Some(h) ==> h == old(self).requests()[target],
            final(self).requests() == old(self).requests().remove(target),
            final(self).requests().dom() == next_active(old(self).requests().dom(), Lifecycle::Cancel(target)),
            final(self).subscriptions() == old(self).subscriptions(),
    {
        let h = self.requests.remove(&target);
        (Response::new(req_id, RpcResult::Done(true)), h)
    }

    /// Draws a subscription id that no running stream holds.
    pub fn new_subscription_id(&self) -> (r: Option<String>)
        requires
            self.wf(),
        ensures
            r matches Some(s) ==> !self.subscriptions().contains_key(s@) && s@.len() == SUBSCRIPTION_ID_LEN,
            (forall|k: Seq<char>| #[trigger] self.subscriptions().contains_key(k) ==> k.len() != SUBSCRIPTION_ID_LEN)
                ==> r is Some,
    {
        let mut tries: usize = 0;
        while tries < SUBSCRIPTION_ID_DRAWS
            invariant
                self.wf(),
                (forall|k: Seq<char>| #[trigger] self.subscriptions().contains_key(k) ==> k.len()
                    != SUBSCRIPTION_ID_LEN) ==> tries == 0,
            decreases SUBSCRIPTION_ID_DRAWS - tries,
        {
            let id = random_subscription_id();
            if !self.subscriptions.contains(&id) {
                return Some(id);
            }
            assert(self.subscriptions().contains_key(id@) && id@.len() == SUBSCRIPTION_ID_LEN);
            tries = tries + 1;
        }
        None
    }

    /// The stream of a bulk operation has finished: its entry goes. Returns
    /// whether it was still registered.
    pub fn finish_stream(&mut self, sub_id: &String) -> (r: bool)
        requires
            old(self).wf(),
        ensures
            final(self).wf(),
            r == old(self).subscriptions().contains_key(sub_id@),
            final(self).subscriptions() == old(self).subscriptions().remove(sub_id@),
            final(self).requests() == old(self).requests(),
    {
        self.subscriptions.remove(sub_id).is_some()
    }

    /// Empties both registries and hands back every handle, to be aborted.
    pub fn shutdown(&mut self) -> (r: Vec<H>)
        requires
            old(self).wf(),
        ensures
            final(self).wf(),
            final(self).requests() == Map::<usize, H>::empty(),
            final(self).subscriptions() == Map::<Seq<char>, H>::empty(),
            forall|id: usize| #[trigger] old(self).requests().contains_key(id)
                ==> r@.contains(old(self).requests()[id]),
            forall|s: Seq<char>| #[trigger] old(self).subscriptions().contains_key(s)
                ==> r@.contains(old(self).subscriptions()[s]),
    {
        let mut a = self.requests.drain();
        let mut b = self.subscriptions.drain();
        let ghost va = a@;
        let ghost vb = b@;
        a.append(&mut b);
        proof {
            assert forall|id: usize| #[trigger] old(self).requests().contains_key(id)
                implies a@.contains(old(self).requests()[id]) by {
                let i = choose|i: int| 0 <= i < va.len() && va[i] == old(self).requests()[id];
                assert(a@[i] == va[i]);
            }
            assert forall|s: Seq<char>| #[trigger] old(self).subscriptions().contains_key(s)
                implies a@.contains(old(self).subscriptions()[s]) by {
                let i = choose|i: int| 0 <= i < vb.len() && vb[i] == old(self).subscriptions()[s];
                assert(a@[va.len() + i] == vb[i]);
            }
        }
        a
    }
}

/// Registers the task of a stream under its subscription id. An id that is
/// already in use is refused and the handle given back.
pub fn run<H>(dispatcher: &mut Dispatcher<H>, sub_id: String, handle: H) -> (r: Result<(), H>)
    requires
        old(dispatcher).wf(),
    ensures
        final(dispatcher).wf(),
        r is Ok <==> !old(dispatcher).subscriptions().contains_key(sub_id@),
        r is Ok ==> final(dispatcher).subscriptions() == old(dispatcher).subscriptions().insert(sub_id@, handle),
        r matches Err(h) ==> h == handle && final(dispatcher).subscriptions() == old(dispatcher).subscriptions(),
        final(dispatcher).requests() == old(dispatcher).requests(),
{
    dispatcher.subscriptions.register(sub_id, handle)
}

/// Ends subscription `id`: `Ok(true)` and its handle, to be aborted, if it is
/// running; the invalid-subscription error otherwise.
pub fn sub_c<H>(dispatcher: &mut Dispatcher<H>, id: &SubscriptionId) -> (r: (Result<bool, RpcError>, Option<H>))
    requires
        old(dispatcher).wf(),
    ensures
        final(dispatcher).wf(),
        final(dispatcher).requests() == old(dispatcher).requests(),
        match id {
            SubscriptionId::String(s) => {
                &&& final(dispatcher).subscriptions() == old(dispatcher).subscriptions().remove(s@)
                &&& r.1 is Some <==> old(dispatcher).subscriptions().contains_key(s@)
                &&& r.1 matches Some(h) ==> h == old(dispatcher).subscriptions()[s@]
            },
            SubscriptionId::Number(_) => final(dispatcher).subscriptions() == old(dispatcher).subscriptions()
                && r.1 is None,
        },
        r.1 is Some ==> r.0 == Ok::<bool, RpcError>(true),
        r.1 is None ==> (r.0 matches Err(e) && e.code == ErrorCode::InvalidParams
            && e.message@ == invalid_subscription_message() && e.data is None),
{
    let removed = match id {
        SubscriptionId::String(s) => dispatcher.subscriptions.remove(s),
        SubscriptionId::Number(_) => None,
    };
    match removed {
        Some(h) => (Ok(true), Some(h)),
        None => (Err(invalid_subscription()), None),
    }
}

/// Decides what to do with a decoded request.
///
/// A simple operation is performed, unless its id is already running, which
/// is answered with an error. A bulk operation becomes a stream: a copy stops
/// at its first failure and is throttled by the interval asked for; a move or
/// delete reports every item. A cancel removes its target and answers
/// success; an unsubscribe ends its stream, or answers the
/// invalid-subscription error.
pub fn do_request<H>(dispatcher: &mut Dispatcher<H>, req: Request) -> (r: Plan<H>)
    requires
        old(dispatcher).wf(),
    ensures
        final(dispatcher).wf(),
        req.fun.is_simple() || req.fun.is_bulk() ==> *final(dispatcher) == *old(dispatcher),
        req.fun.is_simple() && !old(dispatcher).requests().contains_key(req.id) ==> r == Plan::<H>::Perform(req),
        req.fun.is_simple() && old(dispatcher).requests().contains_key(req.id) ==> (r matches Plan::Reply(resp, None)
            && resp.id == req.id && (resp.res matches RpcResult::Failed(m) && m@ == duplicate_id_message())),
        req.fun matches Function::CopySet { progress_interval, .. } ==> (r matches Plan::Stream(q, e) && q == req
            && fresh(e, ErrorPolicy::Stop, copy_interval(progress_interval))),
        req.fun is MoveSet || req.fun is DeleteSet ==> (r matches Plan::Stream(q, e) && q == req
            && fresh(e, ErrorPolicy::Continue, 0)),
        req.fun matches Function::Cancel { target_id } ==> (r matches Plan::Reply(resp, h)
            && resp.id == req.id && resp.res == RpcResult::<bool>::Done(true)
            && (h is Some <==> old(dispatcher).requests().contains_key(target_id))
            && (h matches Some(x) ==> x == old(dispatcher).requests()[target_id])
            && final(dispatcher).requests() == old(dispatcher).requests().remove(target_id)
            && final(dispatcher).subscriptions() == old(dispatcher).subscriptions()),
        req.fun matches Function::Unsubscribe { subscription_id } ==> (r matches Plan::Reply(resp, h)
            && resp.id == req.id
            && final(dispatcher).requests() == old(dispatcher).requests()
            && match subscription_id {
                SubscriptionId::String(s) => {
                    &&& final(dispatcher).subscriptions() == old(dispatcher).subscriptions().remove(s@)
                    &&& h is Some <==> old(dispatcher).subscriptions().contains_key(s@)
                    &&& h matches Some(x) ==> x == old(dispatcher).subscriptions()[s@]
                },
                SubscriptionId::Number(_) => final(dispatcher).subscriptions() == old(dispatcher).subscriptions()
                    && h is None,
            }
            && (h is Some ==> resp.res == RpcResult::<bool>::Done(true))
            && (h is None ==> (resp.res matches RpcResult::Failed(m) && m@ == invalid_subscription_message()))),
{
    match req.fun {
        Function::Cancel { target_id } => {
            let (resp, h) = dispatcher.cancel_request(req.id, target_id);
            Plan::Reply(resp, h)
        },
        Function::Unsubscribe { subscription_id } => {
            let (res, h) = sub_c(dispatcher, &subscription_id);
            let res = match res {
                Ok(v) => RpcResult::Done(v),
                Err(e) => RpcResult::Failed(e.message),
            };
            Plan::Reply(Response::new(req.id, res), h)
        },
        Function::CopySet { progress_interval, .. } => {
            let e = Emitter::for_copy(progress_interval);
            Plan::Stream(req, e)
        },
        Function::MoveSet { .. } | Function::DeleteSet { .. } => Plan::Stream(req, Emitter::for_items()),
        _ => {
            if dispatcher.requests.contains(&req.id) {
                let resp = Response::new(req.id, RpcResult::Failed(String::from_str("Duplicate request id.")));
                Plan::Reply(resp, None)
            } else {
                Plan::Perform(req)
            }
        },
    }
}

} // verus!
