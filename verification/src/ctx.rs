//! What a trace learns from the cluster.
//!
//! A trace needs objects that only the cluster has, and which ones it needs depends on those that
//! it has seen. It reads the replies that have come so far, in order. Where they end too early it
//! stops and says which request comes next. Once the reply to that has been added the trace is
//! run again from its start: it takes the same way up to that point and goes on from there.
use crate::cluster::{
    DaemonSet, Deployment, Endpoint, Pod, ReplicaSet, Service, StatefulSet,
};
use vstd::prelude::*;
use vstd::string::*;

verus! {

/// What a trace asks the cluster for.
#[derive(Debug)]
pub enum Request {
    Service { namespace: String, name: String },
    Pod { namespace: String, name: String },
    ReplicaSet { namespace: String, name: String },
    Deployment { namespace: String, name: String },
    StatefulSet { namespace: String, name: String },
    DaemonSet { namespace: String, name: String },
    /// The endpoints at a path of the destination service.
    Endpoints { path: String },
}

/// What a [`Request`] asks for.
pub enum RequestView {
    Service { namespace: Seq<char>, name: Seq<char> },
    Pod { namespace: Seq<char>, name: Seq<char> },
    ReplicaSet { namespace: Seq<char>, name: Seq<char> },
    Deployment { namespace: Seq<char>, name: Seq<char> },
    StatefulSet { namespace: Seq<char>, name: Seq<char> },
    DaemonSet { namespace: Seq<char>, name: Seq<char> },
    Endpoints { path: Seq<char> },
}

impl View for Request {
    type V = RequestView;

    open spec fn view(&self) -> RequestView {
        match self {
            Request::Service { namespace, name } => RequestView::Service {
                namespace: namespace@,
                name: name@,
            },
            Request::Pod { namespace, name } => RequestView::Pod {
                namespace: namespace@,
                name: name@,
            },
            Request::ReplicaSet { namespace, name } => RequestView::ReplicaSet {
                namespace: namespace@,
                name: name@,
            },
            Request::Deployment { namespace, name } => RequestView::Deployment {
                namespace: namespace@,
                name: name@,
            },
            Request::StatefulSet { namespace, name } => RequestView::StatefulSet {
                namespace: namespace@,
                name: name@,
            },
            Request::DaemonSet { namespace, name } => RequestView::DaemonSet {
                namespace: namespace@,
                name: name@,
            },
            Request::Endpoints { path } => RequestView::Endpoints { path: path@ },
        }
    }
}

/// What the cluster replies.
pub enum Reply {
    Service(Service),
    Pod(Pod),
    ReplicaSet(ReplicaSet),
    Deployment(Deployment),
    StatefulSet(StatefulSet),
    DaemonSet(DaemonSet),
    Endpoints(Vec<Endpoint>),
}

/// Why a trace cannot be finished.
#[derive(Debug)]
pub enum Abort {
    /// A part that the trace reads is absent.
    Missing,
    /// The trace does not know how to show a part.
    Unsupported,
    /// The trace does not know how to show what belongs to an owner of this kind.
    UnsupportedOwner(String),
    /// An object has more than one owner.
    SeveralOwners,
    /// A reply is not of the kind that was asked for.
    UnexpectedReply,
}

/// What an [`Abort`] says.
pub enum AbortView {
    Missing,
    Unsupported,
    UnsupportedOwner(Seq<char>),
    SeveralOwners,
    UnexpectedReply,
}

impl View for Abort {
    type V = AbortView;

    open spec fn view(&self) -> AbortView {
        match self {
            Abort::Missing => AbortView::Missing,
            Abort::Unsupported => AbortView::Unsupported,
            Abort::UnsupportedOwner(kind) => AbortView::UnsupportedOwner(kind@),
            Abort::SeveralOwners => AbortView::SeveralOwners,
            Abort::UnexpectedReply => AbortView::UnexpectedReply,
        }
    }
}

/// Why a trace stops before its end.
#[derive(Debug)]
pub enum Stop {
    /// It needs a reply.
    Ask(Request),
    /// A method has a number that stands for none.
    UnknownMethod(i32),
    /// It cannot be finished.
    Abort(Abort),
}

/// What a [`Stop`] says.
pub enum StopView {
    Ask(RequestView),
    UnknownMethod(i32),
    Abort(AbortView),
}

impl View for Stop {
    type V = StopView;

    open spec fn view(&self) -> StopView {
        match self {
            Stop::Ask(request) => StopView::Ask(request@),
            Stop::UnknownMethod(code) => StopView::UnknownMethod(*code),
            Stop::Abort(abort) => StopView::Abort(abort@),
        }
    }
}

/// How far a part of a trace gets.
pub enum Run<T> {
    /// To its end, with its result and the number of replies that have been read by then.
    Done(T, int),
    /// Not to its end.
    Stop(StopView),
}

/// A run that cannot be finished.
pub open spec fn abort<T>(why: AbortView) -> Run<T> {
    Run::Stop(StopView::Abort(why))
}

/// Runs `step` on each of `items` in turn: on its number, itself, and the replies read so far.
pub open spec fn run_all<A, T>(
    items: Seq<A>,
    step: spec_fn(int, A, int) -> Run<T>,
    at: int,
) -> Run<Seq<T>>
    decreases items.len(),
{
    if items.len() == 0 {
        Run::Done(Seq::empty(), at)
    } else {
        match run_all(items.drop_last(), step, at) {
            Run::Stop(stop) => Run::Stop(stop),
            Run::Done(results, at) => match step(items.len() - 1, items.last(), at) {
                Run::Stop(stop) => Run::Stop(stop),
                Run::Done(result, at) => Run::Done(results.push(result), at),
            },
        }
    }
}

/// Where one of the first items stops the run, the others have no say.
pub proof fn lemma_run_all_stop<A, T>(
    items: Seq<A>,
    n: int,
    step: spec_fn(int, A, int) -> Run<T>,
    at: int,
)
    requires
        0 <= n <= items.len(),
        run_all(items.take(n), step, at) is Stop,
    ensures
        run_all(items, step, at) == run_all(items.take(n), step, at),
    decreases items.len(),
{
    if n < items.len() {
        assert(items.drop_last().take(n) =~= items.take(n));
        lemma_run_all_stop(items.drop_last(), n, step, at);
    } else {
        assert(items.take(n) =~= items);
    }
}

/// Whether `step`, from some reply on, comes to `result` on the item with number `i`.
pub open spec fn comes_to<A, T>(
    step: spec_fn(int, A, int) -> Run<T>,
    i: int,
    item: A,
    result: T,
) -> bool {
    exists|from: int| (#[trigger] step(i, item, from)) is Done && step(i, item, from)->Done_0
        == result
}

/// A run that is finished has a result for every item: what its step came to.
pub proof fn lemma_run_all_done<A, T>(items: Seq<A>, step: spec_fn(int, A, int) -> Run<T>, at: int)
    requires
        run_all(items, step, at) is Done,
    ensures
        run_all(items, step, at)->Done_0.len() == items.len(),
        forall|i: int|
            0 <= i < items.len() ==> #[trigger] comes_to(
                step,
                i,
                items[i],
                run_all(items, step, at)->Done_0[i],
            ),
    decreases items.len(),
{
    if items.len() > 0 {
        let before = items.drop_last();
        lemma_run_all_done(before, step, at);
        let earlier = run_all(before, step, at);
        let results = run_all(items, step, at)->Done_0;
        assert forall|i: int| 0 <= i < items.len() implies #[trigger] comes_to(
            step,
            i,
            items[i],
            results[i],
        ) by {
            if i < before.len() {
                assert(comes_to(step, i, before[i], earlier->Done_0[i]));
            } else {
                assert(step(i, items[i], earlier->Done_1) is Done);
            }
        }
    }
}

/// In a run that is finished every item is taken from the reply on at which those before it ended,
/// and the next one where it ends.
pub proof fn law_items_are_taken_in_turn<A, T>(
    items: Seq<A>,
    step: spec_fn(int, A, int) -> Run<T>,
    at: int,
    n: int,
)
    requires
        run_all(items, step, at) is Done,
        0 <= n < items.len(),
    ensures
        run_all(items.take(0), step, at) == Run::Done(Seq::<T>::empty(), at),
        run_all(items.take(n), step, at) is Done,
        run_all(items.take(n + 1), step, at) is Done,
        run_all(items.take(items.len() as int), step, at) == run_all(items, step, at),
        run_all(items, step, at)->Done_0.len() == items.len(),
        step(n, items[n], run_all(items.take(n), step, at)->Done_1) == Run::Done(
            run_all(items, step, at)->Done_0[n],
            run_all(items.take(n + 1), step, at)->Done_1,
        ),
    decreases items.len(),
{
    let before = items.drop_last();
    lemma_run_all_done(items, step, at);
    assert(items.take(items.len() as int) =~= items);
    if n < before.len() {
        law_items_are_taken_in_turn(before, step, at, n);
        assert(before.take(n) =~= items.take(n));
        assert(before.take(n + 1) =~= items.take(n + 1));
        assert(before[n] == items[n]);
    } else {
        assert(items.take(n) =~= before);
        assert(items.take(n + 1) =~= items);
    }
}

/// A run that stops does so at the first item that stops, as that does.
pub proof fn law_run_stops_at_the_first_that_stops<A, T>(
    items: Seq<A>,
    step: spec_fn(int, A, int) -> Run<T>,
    at: int,
)
    requires
        run_all(items, step, at) is Stop,
    ensures
        exists|n: int|
            #![trigger items.take(n)]
            {
                &&& 0 <= n < items.len()
                &&& run_all(items.take(n), step, at) is Done
                &&& step(n, items[n], run_all(items.take(n), step, at)->Done_1) == Run::<T>::Stop(
                    run_all(items, step, at)->Stop_0,
                )
            },
    decreases items.len(),
{
    let before = items.drop_last();
    if run_all(before, step, at) is Stop {
        law_run_stops_at_the_first_that_stops(before, step, at);
        let n = choose|n: int|
            #![trigger before.take(n)]
            {
                &&& 0 <= n < before.len()
                &&& run_all(before.take(n), step, at) is Done
                &&& step(n, before[n], run_all(before.take(n), step, at)->Done_1)
                    == Run::<T>::Stop(run_all(before, step, at)->Stop_0)
            };
        assert(before.take(n) =~= items.take(n));
        assert(before[n] == items[n]);
    } else {
        let n = items.len() - 1;
        assert(items.take(n) =~= before);
    }
}

/// Whether `reply` is of the kind that `request` asks for.
pub open spec fn fits(request: RequestView, reply: Reply) -> bool {
    match request {
        RequestView::Service { .. } => reply is Service,
        RequestView::Pod { .. } => reply is Pod,
        RequestView::ReplicaSet { .. } => reply is ReplicaSet,
        RequestView::Deployment { .. } => reply is Deployment,
        RequestView::StatefulSet { .. } => reply is StatefulSet,
        RequestView::DaemonSet { .. } => reply is DaemonSet,
        RequestView::Endpoints { .. } => reply is Endpoints,
    }
}

/// How a run on the first `n` replies in `log`, `short`, goes together with one on all of them,
/// `long`, where both start after the first `at`. A run reads on. What it comes to on the first
/// `n` it comes to on all; where it needs more than `n` it asks, and takes the reply where that
/// fits.
pub open spec fn keeps<T>(short: Run<T>, long: Run<T>, at: int, log: Seq<Reply>, n: int) -> bool {
    &&& long matches Run::Done(_, end) ==> at <= end
    &&& at >= log.len() ==> long != abort::<T>(AbortView::UnexpectedReply)
    &&& 0 <= at <= n ==> match short {
        Run::Done(_, end) => at <= end <= n && long == short,
        Run::Stop(StopView::Ask(request)) => {
            &&& long matches Run::Done(_, end) ==> end > n
            &&& n + 1 == log.len() && fits(request, log[n]) ==> long != abort::<T>(
                AbortView::UnexpectedReply,
            )
        },
        Run::Stop(_) => long == short,
    }
}

/// Steps that keep to the replies that are there make a run that does.
pub proof fn lemma_run_all_keeps<A, T>(
    items: Seq<A>,
    short: spec_fn(int, A, int) -> Run<T>,
    long: spec_fn(int, A, int) -> Run<T>,
    at: int,
    log: Seq<Reply>,
    n: int,
)
    requires
        forall|i: int, at: int|
            #![trigger long(i, items[i], at)]
            0 <= i < items.len() ==> keeps(
                short(i, items[i], at),
                long(i, items[i], at),
                at,
                log,
                n,
            ),
    ensures
        keeps(run_all(items, short, at), run_all(items, long, at), at, log, n),
    decreases items.len(),
{
    if items.len() > 0 {
        let before = items.drop_last();
        let last = items.len() - 1;
        assert forall|i: int, at: int|
            #![trigger long(i, before[i], at)]
            0 <= i < before.len() implies keeps(
            short(i, before[i], at),
            long(i, before[i], at),
            at,
            log,
            n,
        ) by {
            assert(before[i] == items[i]);
        }
        lemma_run_all_keeps(before, short, long, at, log, n);
        assert(forall|at: int|
            #![trigger long(last, items[last], at)]
            keeps(short(last, items[last], at), long(last, items[last], at), at, log, n));
    }
}

/// Reads the reply to `request`, which is the one that comes after the first `at`.
pub open spec fn answer<T>(
    log: Seq<Reply>,
    at: int,
    request: RequestView,
    read: spec_fn(Reply) -> Option<T>,
) -> Run<T> {
    if at >= log.len() {
        Run::Stop(StopView::Ask(request))
    } else {
        match read(log[at]) {
            Some(object) => Run::Done(object, at + 1),
            None => abort(AbortView::UnexpectedReply),
        }
    }
}

/// Asks for a service.
pub open spec fn ask_service(
    log: Seq<Reply>,
    at: int,
    namespace: Seq<char>,
    name: Seq<char>,
) -> Run<Service> {
    answer(
        log,
        at,
        RequestView::Service { namespace, name },
        |reply: Reply|
            match reply {
                Reply::Service(object) => Some(object),
                _ => None,
            },
    )
}

/// Asks for a pod.
pub open spec fn ask_pod(
    log: Seq<Reply>,
    at: int,
    namespace: Seq<char>,
    name: Seq<char>,
) -> Run<Pod> {
    answer(
        log,
        at,
        RequestView::Pod { namespace, name },
        |reply: Reply|
            match reply {
                Reply::Pod(object) => Some(object),
                _ => None,
            },
    )
}

/// Asks for a replica set.
pub open spec fn ask_replicaset(
    log: Seq<Reply>,
    at: int,
    namespace: Seq<char>,
    name: Seq<char>,
) -> Run<ReplicaSet> {
    answer(
        log,
        at,
        RequestView::ReplicaSet { namespace, name },
        |reply: Reply|
            match reply {
                Reply::ReplicaSet(object) => Some(object),
                _ => None,
            },
    )
}

/// Asks for a deployment.
pub open spec fn ask_deployment(
    log: Seq<Reply>,
    at: int,
    namespace: Seq<char>,
    name: Seq<char>,
) -> Run<Deployment> {
    answer(
        log,
        at,
        RequestView::Deployment { namespace, name },
        |reply: Reply|
            match reply {
                Reply::Deployment(object) => Some(object),
                _ => None,
            },
    )
}

/// Asks for a stateful set.
pub open spec fn ask_statefulset(
    log: Seq<Reply>,
    at: int,
    namespace: Seq<char>,
    name: Seq<char>,
) -> Run<StatefulSet> {
    answer(
        log,
        at,
        RequestView::StatefulSet { namespace, name },
        |reply: Reply|
            match reply {
                Reply::StatefulSet(object) => Some(object),
                _ => None,
            },
    )
}

/// Asks for a daemon set.
pub open spec fn ask_daemonset(
    log: Seq<Reply>,
    at: int,
    namespace: Seq<char>,
    name: Seq<char>,
) -> Run<DaemonSet> {
    answer(
        log,
        at,
        RequestView::DaemonSet { namespace, name },
        |reply: Reply|
            match reply {
                Reply::DaemonSet(object) => Some(object),
                _ => None,
            },
    )
}

/// Asks for the endpoints at a path.
pub open spec fn ask_endpoints(log: Seq<Reply>, at: int, path: Seq<char>) -> Run<Seq<Endpoint>> {
    answer(
        log,
        at,
        RequestView::Endpoints { path },
        |reply: Reply|
            match reply {
                Reply::Endpoints(endpoints) => Some(endpoints@),
                _ => None,
            },
    )
}

/// The replies that a trace runs on, and how many of them it has read.
pub struct TraceCtx<'a> {
    pub replies: &'a Vec<Reply>,
    pub at: usize,
}

impl<'a> TraceCtx<'a> {
    /// A trace that has read none of `replies`.
    pub fn new(replies: &'a Vec<Reply>) -> (ctx: TraceCtx<'a>)
        ensures
            ctx.replies == replies,
            ctx.at == 0,
    {
        TraceCtx { replies, at: 0 }
    }

    /// Asks for a service.
    pub fn service(&mut self, namespace: &String, name: &String) -> (r: Result<
        &'a Service,
        Stop,
    >)
        ensures
            final(self).replies == old(self).replies,
            ask_service(old(self).replies@, old(self).at as int, namespace@, name@)
                == (match r {
                Ok(object) => Run::Done(*object, final(self).at as int),
                Err(stop) => Run::Stop(stop@),
            }),
    {
        if self.at >= self.replies.len() {
            return Err(
                Stop::Ask(
                    Request::Service { namespace: namespace.clone(), name: name.clone() },
                ),
            );
        }
        match &self.replies[self.at] {
            Reply::Service(object) => {
                self.at = self.at + 1;
                Ok(object)
            },
            _ => Err(Stop::Abort(Abort::UnexpectedReply)),
        }
    }

    /// Asks for a pod.
    pub fn pod(&mut self, namespace: &String, name: &String) -> (r: Result<
        &'a Pod,
        Stop,
    >)
        ensures
            final(self).replies == old(self).replies,
            ask_pod(old(self).replies@, old(self).at as int, namespace@, name@)
                == (match r {
                Ok(object) => Run::Done(*object, final(self).at as int),
                Err(stop) => Run::Stop(stop@),
            }),
    {
        if self.at >= self.replies.len() {
            return Err(
                Stop::Ask(
                    Request::Pod { namespace: namespace.clone(), name: name.clone() },
                ),
            );
        }
        match &self.replies[self.at] {
            Reply::Pod(object) => {
                self.at = self.at + 1;
                Ok(object)
            },
            _ => Err(Stop::Abort(Abort::UnexpectedReply)),
        }
    }

    /// Asks for a replica set.
    pub fn replicaset(&mut self, namespace: &String, name: &String) -> (r: Result<
        &'a ReplicaSet,
        Stop,
    >)
        ensures
            final(self).replies == old(self).replies,
            ask_replicaset(old(self).replies@, old(self).at as int, namespace@, name@)
                == (match r {
                Ok(object) => Run::Done(*object, final(self).at as int),
                Err(stop) => Run::Stop(stop@),
            }),
    {
        if self.at >= self.replies.len() {
            return Err(
                Stop::Ask(
                    Request::ReplicaSet { namespace: namespace.clone(), name: name.clone() },
                ),
            );
        }
        match &self.replies[self.at] {
            Reply::ReplicaSet(object) => {
                self.at = self.at + 1;
                Ok(object)
            },
            _ => Err(Stop::Abort(Abort::UnexpectedReply)),
        }
    }

    /// Asks for a deployment.
    pub fn deployment(&mut self, namespace: &String, name: &String) -> (r: Result<
        &'a Deployment,
        Stop,
    >)
        ensures
            final(self).replies == old(self).replies,
            ask_deployment(old(self).replies@, old(self).at as int, namespace@, name@)
                == (match r {
                Ok(object) => Run::Done(*object, final(self).at as int),
                Err(stop) => Run::Stop(stop@),
            }),
    {
        if self.at >= self.replies.len() {
            return Err(
                Stop::Ask(
                    Request::Deployment { namespace: namespace.clone(), name: name.clone() },
                ),
            );
        }
        match &self.replies[self.at] {
            Reply::Deployment(object) => {
                self.at = self.at + 1;
                Ok(object)
            },
            _ => Err(Stop::Abort(Abort::UnexpectedReply)),
        }
    }

    /// Asks for a stateful set.
    pub fn statefulset(&mut self, namespace: &String, name: &String) -> (r: Result<
        &'a StatefulSet,
        Stop,
    >)
        ensures
            final(self).replies == old(self).replies,
            ask_statefulset(old(self).replies@, old(self).at as int, namespace@, name@)
                == (match r {
                Ok(object) => Run::Done(*object, final(self).at as int),
                Err(stop) => Run::Stop(stop@),
            }),
    {
        if self.at >= self.replies.len() {
            return Err(
                Stop::Ask(
                    Request::StatefulSet { namespace: namespace.clone(), name: name.clone() },
                ),
            );
        }
        match &self.replies[self.at] {
            Reply::StatefulSet(object) => {
                self.at = self.at + 1;
                Ok(object)
            },
            _ => Err(Stop::Abort(Abort::UnexpectedReply)),
        }
    }

    /// Asks for a daemon set.
    pub fn daemonset(&mut self, namespace: &String, name: &String) -> (r: Result<
        &'a DaemonSet,
        Stop,
    >)
        ensures
            final(self).replies == old(self).replies,
            ask_daemonset(old(self).replies@, old(self).at as int, namespace@, name@)
                == (match r {
                Ok(object) => Run::Done(*object, final(self).at as int),
                Err(stop) => Run::Stop(stop@),
            }),
    {
        if self.at >= self.replies.len() {
            return Err(
                Stop::Ask(
                    Request::DaemonSet { namespace: namespace.clone(), name: name.clone() },
                ),
            );
        }
        match &self.replies[self.at] {
            Reply::DaemonSet(object) => {
                self.at = self.at + 1;
                Ok(object)
            },
            _ => Err(Stop::Abort(Abort::UnexpectedReply)),
        }
    }

    /// Asks for the endpoints at a path.
    pub fn endpoints(&mut self, path: &String) -> (r: Result<&'a Vec<Endpoint>, Stop>)
        ensures
            final(self).replies == old(self).replies,
            ask_endpoints(old(self).replies@, old(self).at as int, path@) == (match r {
                Ok(endpoints) => Run::Done(endpoints@, final(self).at as int),
                Err(stop) => Run::Stop(stop@),
            }),
    {
        if self.at >= self.replies.len() {
            return Err(Stop::Ask(Request::Endpoints { path: path.clone() }));
        }
        match &self.replies[self.at] {
            Reply::Endpoints(endpoints) => {
                self.at = self.at + 1;
                Ok(endpoints)
            },
            _ => Err(Stop::Abort(Abort::UnexpectedReply)),
        }
    }
}

} // verus!
