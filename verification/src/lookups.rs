//! What a trace looks up in the cluster, and what it makes of the replies.
use crate::children::{
    pods_with, sets_with, ChildrenView, DaemonSetView, DeploymentView, PodView, ReplicaSetView,
    StatefulSetView,
};
use crate::cluster::{Endpoint, ObjectMeta, OwnerReference, Pod, ReplicaSet};
use crate::ctx::{AbortView, Reply, RequestView, Run, StopView};
use crate::endpoints::lookup;
use crate::keyed::{found, get, law_put_is_got, law_put_keeps_order, put};
use crate::policy::{Backend, BackendKind, Balancer, Discovery, Metadata, MetadataKind};
use crate::protocol::{
    backend_run, balancer_path, children_run, endpoint_run, endpoints_run, metadata_run, owner_gap,
};
use crate::text::decimal;
use crate::tree::{label, NodeView, TreeView};
use vstd::prelude::*;

verus! {

/// The owner of an object that has one owner.
pub open spec fn sole_owner(meta: ObjectMeta) -> Option<OwnerReference> {
    match meta.owner_references {
        Some(owners) => if owners@.len() == 1 {
            Some(owners@[0])
        } else {
            None
        },
        None => None,
    }
}

/// The owner of an object can be told exactly where it has one owner. Several are told from none.
pub proof fn law_only_a_sole_owner_is_told(meta: ObjectMeta)
    ensures
        owner_gap(meta) is None <==> sole_owner(meta) is Some,
        owner_gap(meta) == Some(AbortView::SeveralOwners) <==> meta.owner_references is Some
            && meta.owner_references->0@.len() >= 2,
        owner_gap(meta) == Some(AbortView::Unsupported) <==> meta.owner_references is None
            || meta.owner_references->0@.len() == 0,
{
}

/// Whether an endpoint names a pod that was read, which has a sole owner of this kind.
pub open spec fn pod_owned_by(reply: Reply, kind: Seq<char>) -> bool {
    &&& reply is Pod
    &&& sole_owner(reply->Pod_0.metadata) is Some
    &&& sole_owner(reply->Pod_0.metadata)->0.kind@ == kind
}

/// Whether a replica set was read that has a sole owner of this kind.
pub open spec fn set_owned_by(reply: Reply, kind: Seq<char>) -> bool {
    &&& reply is ReplicaSet
    &&& sole_owner(reply->ReplicaSet_0.metadata) is Some
    &&& sole_owner(reply->ReplicaSet_0.metadata)->0.kind@ == kind
}

/// Placing an endpoint asks, in its namespace, first for the pod that it names, then for the owner
/// that the pod names, and then for the owner that the replica set names.
pub proof fn law_endpoint_asks_for_what_it_is_pointed_to(
    children: ChildrenView,
    endpoint: Endpoint,
    log: Seq<Reply>,
    at: int,
    request: RequestView,
)
    requires
        0 <= at <= log.len(),
        endpoint_run(children, endpoint, log, at) == Run::<ChildrenView>::Stop(
            StopView::Ask(request),
        ),
    ensures
        ({
            let own_namespace = lookup(endpoint.metric_labels@, "namespace"@);
            let own_pod = lookup(endpoint.metric_labels@, "pod"@);
            &&& own_namespace is Some
            &&& own_pod is Some
            &&& match request {
                RequestView::Pod { namespace, name } => {
                    &&& log.len() == at
                    &&& namespace == own_namespace->0
                    &&& name == own_pod->0
                },
                RequestView::ReplicaSet { namespace, name } => {
                    &&& log.len() == at + 1
                    &&& pod_owned_by(log[at], "ReplicaSet"@)
                    &&& namespace == own_namespace->0
                    &&& name == sole_owner(log[at]->Pod_0.metadata)->0.name@
                },
                RequestView::DaemonSet { namespace, name } => {
                    &&& log.len() == at + 1
                    &&& pod_owned_by(log[at], "DaemonSet"@)
                    &&& namespace == own_namespace->0
                    &&& name == sole_owner(log[at]->Pod_0.metadata)->0.name@
                },
                RequestView::Deployment { namespace, name } => {
                    &&& log.len() == at + 2
                    &&& pod_owned_by(log[at], "ReplicaSet"@)
                    &&& set_owned_by(log[at + 1], "Deployment"@)
                    &&& namespace == own_namespace->0
                    &&& name == sole_owner(log[at + 1]->ReplicaSet_0.metadata)->0.name@
                },
                RequestView::StatefulSet { namespace, name } => {
                    &&& log.len() == at + 2
                    &&& pod_owned_by(log[at], "ReplicaSet"@)
                    &&& set_owned_by(log[at + 1], "StatefulSet"@)
                    &&& namespace == own_namespace->0
                    &&& name == sole_owner(log[at + 1]->ReplicaSet_0.metadata)->0.name@
                },
                RequestView::Service { .. } => false,
                RequestView::Endpoints { .. } => false,
            }
        }),
{
}

/// Whether the replies from `at` on are those that an endpoint of a daemon set needs.
pub open spec fn daemonset_replies(log: Seq<Reply>, at: int) -> bool {
    &&& at + 2 <= log.len()
    &&& pod_owned_by(log[at], "DaemonSet"@)
    &&& log[at + 1] is DaemonSet
}

/// Whether the replies from `at` on are those that an endpoint of a deployment needs.
pub open spec fn deployment_replies(log: Seq<Reply>, at: int) -> bool {
    &&& at + 3 <= log.len()
    &&& pod_owned_by(log[at], "ReplicaSet"@)
    &&& set_owned_by(log[at + 1], "Deployment"@)
    &&& log[at + 2] is Deployment
}

/// Whether the replies from `at` on are those that an endpoint of a stateful set needs.
pub open spec fn statefulset_replies(log: Seq<Reply>, at: int) -> bool {
    &&& at + 3 <= log.len()
    &&& pod_owned_by(log[at], "ReplicaSet"@)
    &&& set_owned_by(log[at + 1], "StatefulSet"@)
    &&& log[at + 2] is StatefulSet
}

/// An endpoint is placed exactly where it has both labels and the replies are its pod, the pod's
/// owner, and where that is a replica set the replica set's owner. It reads those replies and no
/// others.
pub proof fn law_endpoint_needs_its_owners(
    children: ChildrenView,
    endpoint: Endpoint,
    log: Seq<Reply>,
    at: int,
)
    requires
        0 <= at,
    ensures
        endpoint_run(children, endpoint, log, at) is Done <==> {
            &&& lookup(endpoint.metric_labels@, "namespace"@) is Some
            &&& lookup(endpoint.metric_labels@, "pod"@) is Some
            &&& daemonset_replies(log, at) || deployment_replies(log, at) || statefulset_replies(
                log,
                at,
            )
        },
        endpoint_run(children, endpoint, log, at) matches Run::Done(_, end) ==> {
            &&& pod_owned_by(log[at], "DaemonSet"@) ==> end == at + 2
            &&& pod_owned_by(log[at], "ReplicaSet"@) ==> end == at + 3
        },
{
    lemma_differ();
}

/// Placing an endpoint fails where a label is absent, an object has no owner or several, an owner
/// is of another kind, or a reply is of another kind.
pub proof fn law_endpoint_fails_without_its_owners(
    children: ChildrenView,
    endpoint: Endpoint,
    log: Seq<Reply>,
    at: int,
    stop: StopView,
)
    requires
        0 <= at <= log.len(),
        endpoint_run(children, endpoint, log, at) == Run::<ChildrenView>::Stop(stop),
        !(stop is Ask),
    ensures
        ({
            let labelled = lookup(endpoint.metric_labels@, "namespace"@) is Some && lookup(
                endpoint.metric_labels@,
                "pod"@,
            ) is Some;
            let pod_read = at < log.len() && log[at] is Pod;
            let pod_meta = log[at]->Pod_0.metadata;
            let set_read = at + 1 < log.len() && pod_owned_by(log[at], "ReplicaSet"@) && log[at
                + 1] is ReplicaSet;
            let set_meta = log[at + 1]->ReplicaSet_0.metadata;
            match stop {
                StopView::Abort(AbortView::Unsupported) => !labelled || (pod_read && (
                pod_meta.owner_references is None || pod_meta.owner_references->0@.len() == 0)) || (
                set_read && (set_meta.owner_references is None
                    || set_meta.owner_references->0@.len() == 0)),
                StopView::Abort(AbortView::SeveralOwners) => labelled && ((pod_read
                    && pod_meta.owner_references is Some && pod_meta.owner_references->0@.len()
                    >= 2) || (set_read && set_meta.owner_references is Some
                    && set_meta.owner_references->0@.len() >= 2)),
                StopView::Abort(AbortView::UnsupportedOwner(kind)) => labelled && ((pod_read
                    && pod_owned_by(log[at], kind) && kind != "ReplicaSet"@ && kind
                    != "DaemonSet"@) || (set_read && set_owned_by(log[at + 1], kind) && kind
                    != "Deployment"@ && kind != "StatefulSet"@)),
                StopView::Abort(AbortView::UnexpectedReply) => labelled && {
                    ||| at < log.len() && !(log[at] is Pod)
                    ||| at + 1 < log.len() && pod_owned_by(log[at], "DaemonSet"@) && !(log[at
                        + 1] is DaemonSet)
                    ||| at + 1 < log.len() && pod_owned_by(log[at], "ReplicaSet"@) && !(log[at
                        + 1] is ReplicaSet)
                    ||| at + 2 < log.len() && set_read && set_owned_by(log[at + 1], "Deployment"@)
                        && !(log[at + 2] is Deployment)
                    ||| at + 2 < log.len() && set_read && set_owned_by(log[at + 1], "StatefulSet"@)
                        && !(log[at + 2] is StatefulSet)
                },
                _ => false,
            }
        }),
{
    lemma_differ();
}

/// Whether `after` is `before` with what stands under `key` changed, or `key` added at the end.
pub open spec fn changed_at<T>(
    before: Seq<(Seq<char>, T)>,
    after: Seq<(Seq<char>, T)>,
    key: Seq<char>,
) -> bool {
    &&& get(after, key) is Some
    &&& after.len() == before.len() + if get(before, key) is Some {
        0int
    } else {
        1
    }
    &&& forall|i: int| 0 <= i < before.len() ==> (#[trigger] after[i]).0 == before[i].0
    &&& forall|other: Seq<char>| other != key ==> #[trigger] get(after, other) == get(before, other)
}

/// Whether `after` is `before` with an endpoint listed in the pod of that name. A pod that is known
/// stays as it was first seen.
pub open spec fn pod_gains(
    before: Seq<(Seq<char>, PodView)>,
    after: Seq<(Seq<char>, PodView)>,
    name: Seq<char>,
    pod: Pod,
    endpoint: Endpoint,
) -> bool {
    &&& changed_at(before, after, name)
    &&& get(after, name)->0.pod == if get(before, name) is Some {
        get(before, name)->0.pod
    } else {
        pod
    }
    &&& get(get(after, name)->0.addrs, endpoint.addr.numbers()) == Some(endpoint.text@)
    &&& forall|numbers: (bool, u128, u16)|
        numbers != endpoint.addr.numbers() ==> #[trigger] get(get(after, name)->0.addrs, numbers)
            == if get(before, name) is Some {
            get(get(before, name)->0.addrs, numbers)
        } else {
            None
        }
}

/// Whether `after` is `before` with an endpoint listed in a pod of the replica set of that name. A
/// replica set that is known stays as it was first seen.
pub open spec fn set_gains(
    before: Seq<(Seq<char>, ReplicaSetView)>,
    after: Seq<(Seq<char>, ReplicaSetView)>,
    name: Seq<char>,
    rs: ReplicaSet,
    pod_name: Seq<char>,
    pod: Pod,
    endpoint: Endpoint,
) -> bool {
    &&& changed_at(before, after, name)
    &&& get(after, name)->0.rs == if get(before, name) is Some {
        get(before, name)->0.rs
    } else {
        rs
    }
    &&& pod_gains(
        if get(before, name) is Some {
            get(before, name)->0.pods
        } else {
            Seq::empty()
        },
        get(after, name)->0.pods,
        pod_name,
        pod,
        endpoint,
    )
}

proof fn lemma_changed_at<T>(before: Seq<(Seq<char>, T)>, key: Seq<char>, item: T)
    ensures
        changed_at(before, put(before, key, item), key),
        get(put(before, key, item), key) == Some(item),
{
    let after = put(before, key, item);
    law_put_keeps_order(before, key, item);
    law_put_is_got(before, key, item, key);
    assert forall|other: Seq<char>| other != key implies #[trigger] get(after, other) == get(
        before,
        other,
    ) by {
        law_put_is_got(before, key, item, other);
    }
}

proof fn lemma_pod_gains(
    before: Seq<(Seq<char>, PodView)>,
    name: Seq<char>,
    pod: Pod,
    endpoint: Endpoint,
)
    ensures
        pod_gains(
            before,
            pods_with(before, name, pod, endpoint),
            name,
            pod,
            endpoint,
        ),
{
    let known = found(before, name, PodView { pod, addrs: Seq::empty() });
    let own = endpoint.addr.numbers();
    let listed = PodView {
        pod: known.pod,
        addrs: put(known.addrs, own, endpoint.text@),
    };
    lemma_changed_at(before, name, listed);
    law_put_is_got(known.addrs, own, endpoint.text@, own);
    assert forall|numbers: (bool, u128, u16)| numbers != own implies #[trigger] get(
        listed.addrs,
        numbers,
    ) == if get(before, name) is Some {
        get(get(before, name)->0.addrs, numbers)
    } else {
        None
    } by {
        law_put_is_got(known.addrs, own, endpoint.text@, numbers);
    }
}

proof fn lemma_set_gains(
    before: Seq<(Seq<char>, ReplicaSetView)>,
    name: Seq<char>,
    rs: ReplicaSet,
    pod_name: Seq<char>,
    pod: Pod,
    endpoint: Endpoint,
)
    ensures
        set_gains(
            before,
            sets_with(before, name, rs, pod_name, pod, endpoint),
            name,
            rs,
            pod_name,
            pod,
            endpoint,
        ),
{
    let known = found(before, name, ReplicaSetView { rs, pods: Seq::empty() });
    let pods = pods_with(known.pods, pod_name, pod, endpoint);
    lemma_changed_at(before, name, ReplicaSetView { rs: known.rs, pods });
    lemma_pod_gains(known.pods, pod_name, pod, endpoint);
}

/// An endpoint of a daemon set's pod is listed under the daemon set that was read, in the pod that
/// was read. Nothing else changes.
pub proof fn law_endpoint_of_daemonset_is_listed_there(
    children: ChildrenView,
    endpoint: Endpoint,
    log: Seq<Reply>,
    at: int,
)
    requires
        0 <= at,
        endpoint_run(children, endpoint, log, at) is Done,
        pod_owned_by(log[at], "DaemonSet"@),
    ensures
        ({
            let after = endpoint_run(children, endpoint, log, at)->Done_0;
            let owner = sole_owner(log[at]->Pod_0.metadata)->0.name@;
            let pod = lookup(endpoint.metric_labels@, "pod"@)->0;
            let known = get(children.ds, owner);
            &&& after.deploy == children.deploy
            &&& after.sts == children.sts
            &&& changed_at(children.ds, after.ds, owner)
            &&& get(after.ds, owner)->0.daemonset == if known is Some {
                known->0.daemonset
            } else {
                log[at + 1]->DaemonSet_0
            }
            &&& pod_gains(
                if known is Some {
                    known->0.pods
                } else {
                    Seq::empty()
                },
                get(after.ds, owner)->0.pods,
                pod,
                log[at]->Pod_0,
                endpoint,
            )
        }),
{
    law_endpoint_needs_its_owners(children, endpoint, log, at);
    let after = endpoint_run(children, endpoint, log, at)->Done_0;
    let owner = sole_owner(log[at]->Pod_0.metadata)->0.name@;
    let pod_name = lookup(endpoint.metric_labels@, "pod"@)->0;
    let fresh = DaemonSetView {
        daemonset: log[at + 1]->DaemonSet_0,
        pods: Seq::empty(),
    };
    let known = found(children.ds, owner, fresh);
    let pods = pods_with(known.pods, pod_name, log[at]->Pod_0, endpoint);
    lemma_differ();
    lemma_changed_at(
        children.ds,
        owner,
        DaemonSetView { daemonset: known.daemonset, pods },
    );
    lemma_pod_gains(known.pods, pod_name, log[at]->Pod_0, endpoint);
}

proof fn lemma_differ()
    ensures
        "DaemonSet"@ != "ReplicaSet"@,
        "Deployment"@ != "StatefulSet"@,
{
    reveal_strlit("DaemonSet");
    reveal_strlit("ReplicaSet");
    reveal_strlit("Deployment");
    reveal_strlit("StatefulSet");
    assert("DaemonSet"@.len() == 9 && "ReplicaSet"@.len() == 10);
    assert("Deployment"@.len() == 10 && "StatefulSet"@.len() == 11);
}

/// An endpoint of a deployment's pod is listed under the deployment, the replica set and the pod
/// that were read. Nothing else changes.
pub proof fn law_endpoint_of_deployment_is_listed_there(
    children: ChildrenView,
    endpoint: Endpoint,
    log: Seq<Reply>,
    at: int,
)
    requires
        0 <= at,
        endpoint_run(children, endpoint, log, at) is Done,
        pod_owned_by(log[at], "ReplicaSet"@),
        set_owned_by(log[at + 1], "Deployment"@),
    ensures
        ({
            let after = endpoint_run(children, endpoint, log, at)->Done_0;
            let set = sole_owner(log[at]->Pod_0.metadata)->0.name@;
            let owner = sole_owner(log[at + 1]->ReplicaSet_0.metadata)->0.name@;
            let pod = lookup(endpoint.metric_labels@, "pod"@)->0;
            let known = get(children.deploy, owner);
            &&& after.sts == children.sts
            &&& after.ds == children.ds
            &&& changed_at(children.deploy, after.deploy, owner)
            &&& get(after.deploy, owner)->0.deployment == if known is Some {
                known->0.deployment
            } else {
                log[at + 2]->Deployment_0
            }
            &&& set_gains(
                if known is Some {
                    known->0.replicasets
                } else {
                    Seq::empty()
                },
                get(after.deploy, owner)->0.replicasets,
                set,
                log[at + 1]->ReplicaSet_0,
                pod,
                log[at]->Pod_0,
                endpoint,
            )
        }),
{
    law_endpoint_needs_its_owners(children, endpoint, log, at);
    lemma_differ();
    let set = sole_owner(log[at]->Pod_0.metadata)->0.name@;
    let rs = log[at + 1]->ReplicaSet_0;
    let owner = sole_owner(rs.metadata)->0.name@;
    let pod_name = lookup(endpoint.metric_labels@, "pod"@)->0;
    let pod = log[at]->Pod_0;
    let fresh = DeploymentView {
        deployment: log[at + 2]->Deployment_0,
        replicasets: Seq::empty(),
    };
    let known = found(children.deploy, owner, fresh);
    let sets = sets_with(known.replicasets, set, rs, pod_name, pod, endpoint);
    lemma_changed_at(
        children.deploy,
        owner,
        DeploymentView { deployment: known.deployment, replicasets: sets },
    );
    lemma_set_gains(known.replicasets, set, rs, pod_name, pod, endpoint);
}

/// An endpoint of a stateful set's pod is listed under the stateful set, the replica set and the
/// pod that were read. Nothing else changes.
pub proof fn law_endpoint_of_statefulset_is_listed_there(
    children: ChildrenView,
    endpoint: Endpoint,
    log: Seq<Reply>,
    at: int,
)
    requires
        0 <= at,
        endpoint_run(children, endpoint, log, at) is Done,
        pod_owned_by(log[at], "ReplicaSet"@),
        set_owned_by(log[at + 1], "StatefulSet"@),
    ensures
        ({
            let after = endpoint_run(children, endpoint, log, at)->Done_0;
            let set = sole_owner(log[at]->Pod_0.metadata)->0.name@;
            let owner = sole_owner(log[at + 1]->ReplicaSet_0.metadata)->0.name@;
            let pod = lookup(endpoint.metric_labels@, "pod"@)->0;
            let known = get(children.sts, owner);
            &&& after.deploy == children.deploy
            &&& after.ds == children.ds
            &&& changed_at(children.sts, after.sts, owner)
            &&& get(after.sts, owner)->0.statefulset == if known is Some {
                known->0.statefulset
            } else {
                log[at + 2]->StatefulSet_0
            }
            &&& set_gains(
                if known is Some {
                    known->0.replicasets
                } else {
                    Seq::empty()
                },
                get(after.sts, owner)->0.replicasets,
                set,
                log[at + 1]->ReplicaSet_0,
                pod,
                log[at]->Pod_0,
                endpoint,
            )
        }),
{
    law_endpoint_needs_its_owners(children, endpoint, log, at);
    lemma_differ();
    let set = sole_owner(log[at]->Pod_0.metadata)->0.name@;
    let rs = log[at + 1]->ReplicaSet_0;
    let owner = sole_owner(rs.metadata)->0.name@;
    let pod_name = lookup(endpoint.metric_labels@, "pod"@)->0;
    let pod = log[at]->Pod_0;
    let fresh = StatefulSetView {
        statefulset: log[at + 2]->StatefulSet_0,
        replicasets: Seq::empty(),
    };
    let known = found(children.sts, owner, fresh);
    let sets = sets_with(known.replicasets, set, rs, pod_name, pod, endpoint);
    lemma_changed_at(
        children.sts,
        owner,
        StatefulSetView { statefulset: known.statefulset, replicasets: sets },
    );
    lemma_set_gains(known.replicasets, set, rs, pod_name, pod, endpoint);
}

/// No endpoints leave no workloads. Otherwise each endpoint is placed among what those before it
/// left, from the reply on at which they ended, and the run ends where the last one does.
pub proof fn law_endpoints_are_placed_one_by_one(
    endpoints: Seq<Endpoint>,
    log: Seq<Reply>,
    at: int,
    n: int,
)
    requires
        endpoints_run(endpoints, log, at) is Done,
        0 <= n < endpoints.len(),
    ensures
        endpoints_run(endpoints.take(0), log, at) matches Run::Done(none, end) && none.deploy.len()
            == 0 && none.sts.len() == 0 && none.ds.len() == 0 && end == at,
        endpoints_run(endpoints.take(n), log, at) is Done,
        endpoint_run(
            endpoints_run(endpoints.take(n), log, at)->Done_0,
            endpoints[n],
            log,
            endpoints_run(endpoints.take(n), log, at)->Done_1,
        ) == endpoints_run(endpoints.take(n + 1), log, at),
        endpoints_run(endpoints.take(n + 1), log, at) is Done,
    decreases endpoints.len(),
{
    let before = endpoints.drop_last();
    if n < before.len() {
        law_endpoints_are_placed_one_by_one(before, log, at, n);
        assert(before.take(n) =~= endpoints.take(n));
        assert(before.take(n + 1) =~= endpoints.take(n + 1));
    } else {
        assert(endpoints.take(n) =~= before);
        assert(endpoints.take(n + 1) =~= endpoints);
    }
}

/// The workloads behind a path are those of the endpoints at that path, which are asked for
/// first. Where the run stops, it stops at one of those endpoints.
pub proof fn law_children_are_those_of_the_endpoints(path: Seq<char>, log: Seq<Reply>, at: int)
    requires
        0 <= at,
    ensures
        at >= log.len() ==> children_run(path, log, at) == Run::<ChildrenView>::Stop(
            StopView::Ask(RequestView::Endpoints { path }),
        ),
        at < log.len() && log[at] is Endpoints ==> children_run(path, log, at) == endpoints_run(
            log[at]->Endpoints_0@,
            log,
            at + 1,
        ),
        children_run(path, log, at) is Done ==> at < log.len() && log[at] is Endpoints,
{
}

/// Endpoints of which one cannot be placed stop there, as it does.
pub proof fn law_endpoints_stop_at_the_first_that_stops(
    endpoints: Seq<Endpoint>,
    log: Seq<Reply>,
    at: int,
)
    requires
        endpoints_run(endpoints, log, at) is Stop,
    ensures
        exists|n: int|
            #![trigger endpoints.take(n)]
            {
                &&& 0 <= n < endpoints.len()
                &&& endpoints_run(endpoints.take(n), log, at) is Done
                &&& endpoint_run(
                    endpoints_run(endpoints.take(n), log, at)->Done_0,
                    endpoints[n],
                    log,
                    endpoints_run(endpoints.take(n), log, at)->Done_1,
                ) == endpoints_run(endpoints, log, at)
            },
    decreases endpoints.len(),
{
    let before = endpoints.drop_last();
    if endpoints_run(before, log, at) is Stop {
        law_endpoints_stop_at_the_first_that_stops(before, log, at);
        let n = choose|n: int|
            #![trigger before.take(n)]
            {
                &&& 0 <= n < before.len()
                &&& endpoints_run(before.take(n), log, at) is Done
                &&& endpoint_run(
                    endpoints_run(before.take(n), log, at)->Done_0,
                    before[n],
                    log,
                    endpoints_run(before.take(n), log, at)->Done_1,
                ) == endpoints_run(before, log, at)
            };
        assert(before.take(n) =~= endpoints.take(n));
        assert(before[n] == endpoints[n]);
    } else {
        let n = endpoints.len() - 1;
        assert(endpoints.take(n) =~= before);
    }
}

/// Whether metadata names a service.
pub open spec fn names_service(meta: Metadata) -> bool {
    meta.kind matches Some(MetadataKind::Resource(r)) && r.group@ == "core"@ && r.kind@
        == "Service"@
}

/// A service is asked for by its own name in its own namespace, and nothing else is asked for.
pub proof fn law_service_is_asked_for_by_name(
    meta: Metadata,
    log: Seq<Reply>,
    at: int,
    request: RequestView,
)
    ensures
        metadata_run(meta, log, at) == Run::<TreeView>::Stop(StopView::Ask(request))
            <==> names_service(meta) && at >= log.len() && request == (RequestView::Service {
            namespace: meta.kind->0->Resource_0.namespace@,
            name: meta.kind->0->Resource_0.name@,
        }),
{
}

/// A service is shown by name and port, with its address from the reply and its port below.
/// Another resource is shown by what names it, without a reply.
pub proof fn law_metadata_shows_the_resource(meta: Metadata, log: Seq<Reply>, at: int)
    requires
        0 <= at,
    ensures
        metadata_run(meta, log, at) is Done <==> {
            &&& meta.kind matches Some(MetadataKind::Resource(_))
            &&& names_service(meta) ==> {
                &&& at < log.len()
                &&& log[at] is Service
                &&& log[at]->Service_0.spec is Some
                &&& log[at]->Service_0.spec->0.cluster_ip is Some
            }
        },
        metadata_run(meta, log, at) matches Run::Done(tree, end) ==> {
            let r = meta.kind->0->Resource_0;
            let port = decimal(r.port as nat);
            if names_service(meta) {
                &&& end == at + 1
                &&& tree.root == NodeView::Node(
                    "svc "@ + r.name@ + "."@ + r.namespace@ + ":"@ + port,
                )
                &&& tree.leaves.len() == 1
                &&& tree.leaves[0] == label(
                    "endpoint"@,
                    log[at]->Service_0.spec->0.cluster_ip->0@ + ":"@ + port,
                )
            } else {
                &&& end == at
                &&& tree.root == NodeView::Node(
                    r.group@ + "."@ + r.kind@ + "/"@ + r.name@ + ":"@ + port + " -n "@
                        + r.namespace@ + " ("@ + r.section@ + ")"@,
                )
                &&& tree.leaves.len() == 0
            }
        },
{
}

/// The path of a balancer is the one that its discovery names.
pub proof fn law_path_is_that_of_the_discovery(balancer: Balancer)
    ensures
        balancer_path(balancer) is Some <==> balancer.discovery is Some
            && balancer.discovery->0.kind is Some,
        balancer.discovery matches Some(discovery) ==> discovery.kind matches Some(
            Discovery::Dst(path),
        ) ==> balancer_path(balancer) == Some(path@),
{
}

/// A backend is shown as what it came from, then its path, then every workload behind that path.
/// It is shown exactly where all of these can be.
pub proof fn law_backend_shows_path_and_workloads(backend: Backend, log: Seq<Reply>, at: int)
    ensures
        ({
            let head = metadata_run(backend.metadata->0, log, at);
            let path = balancer_path(backend.kind->0->Balancer_0);
            let below = children_run(path->0, log, head->Done_1);
            backend_run(backend, log, at) is Done <==> {
                &&& backend.metadata is Some
                &&& head is Done
                &&& backend.kind matches Some(BackendKind::Balancer(_))
                &&& path is Some
                &&& below is Done
                &&& below->Done_0.complete()
            }
        }),
        backend_run(backend, log, at) matches Run::Done(tree, end) ==> {
            let head = metadata_run(backend.metadata->0, log, at);
            let path = balancer_path(backend.kind->0->Balancer_0)->0;
            let below = children_run(path, log, head->Done_1);
            let first = head->Done_0.leaves.len();
            &&& end == below->Done_1
            &&& tree.root == head->Done_0.root
            &&& tree.leaves.len() == first + 1 + below->Done_0.trees().len()
            &&& tree.leaves.take(first as int) == head->Done_0.leaves
            &&& tree.leaves[first as int] == label("FQDN"@, path)
            &&& tree.leaves.skip(first as int + 1) == below->Done_0.trees()
        },
{
    if let Run::Done(tree, end) = backend_run(backend, log, at) {
        let head = metadata_run(backend.metadata->0, log, at);
        let path = balancer_path(backend.kind->0->Balancer_0)->0;
        let below = children_run(path, log, head->Done_1);
        let first = head->Done_0.leaves.len();
        assert(tree.leaves.take(first as int) =~= head->Done_0.leaves);
        assert(tree.leaves.skip(first as int + 1) =~= below->Done_0.trees());
    }
}

/// A backend asks for what its metadata asks for, and then for what its workloads ask for.
pub proof fn law_backend_asks_in_turn(
    backend: Backend,
    log: Seq<Reply>,
    at: int,
    request: RequestView,
)
    requires
        backend_run(backend, log, at) == Run::<TreeView>::Stop(
            StopView::Ask(request),
        ),
    ensures
        ({
            let head = metadata_run(backend.metadata->0, log, at);
            let path = balancer_path(backend.kind->0->Balancer_0);
            ||| head == Run::<TreeView>::Stop(StopView::Ask(request))
            ||| head is Done && path is Some && children_run(path->0, log, head->Done_1) == Run::<
                ChildrenView,
            >::Stop(StopView::Ask(request))
        }),
{
}

/// What a backend came from is looked up before its kind is looked at, and its kind before its
/// workloads are looked up. Each of them that cannot be had says why.
pub proof fn law_backend_stops_in_turn(backend: Backend, log: Seq<Reply>, at: int)
    ensures
        ({
            let whole = backend_run(backend, log, at);
            let head = metadata_run(backend.metadata->0, log, at);
            let path = balancer_path(backend.kind->0->Balancer_0);
            let below = children_run(path->0, log, head->Done_1);
            let missing = Run::<TreeView>::Stop(StopView::Abort(AbortView::Missing));
            let unsupported = Run::<TreeView>::Stop(StopView::Abort(AbortView::Unsupported));
            &&& backend.metadata is None ==> whole == missing
            &&& backend.metadata is Some ==> {
                &&& head is Stop ==> whole == head
                &&& head is Done ==> {
                    &&& backend.kind is None ==> whole == missing
                    &&& backend.kind matches Some(BackendKind::Forward) ==> whole == unsupported
                    &&& backend.kind matches Some(BackendKind::Balancer(_)) ==> {
                        &&& path is None ==> whole == missing
                        &&& path is Some && below is Stop ==> whole == Run::<TreeView>::Stop(
                            below->Stop_0,
                        )
                        &&& path is Some && below is Done && !below->Done_0.complete() ==> whole
                            == missing
                    }
                }
            }
        }),
{
}

/// Metadata that names no resource cannot be shown, nor a service that says too little.
pub proof fn law_metadata_says_what_it_lacks(meta: Metadata, log: Seq<Reply>, at: int)
    requires
        0 <= at,
    ensures
        ({
            let whole = metadata_run(meta, log, at);
            let missing = Run::<TreeView>::Stop(StopView::Abort(AbortView::Missing));
            let unsupported = Run::<TreeView>::Stop(StopView::Abort(AbortView::Unsupported));
            &&& meta.kind is None ==> whole == missing
            &&& meta.kind matches Some(MetadataKind::Default(_)) ==> whole == unsupported
            &&& names_service(meta) && at < log.len() ==> {
                &&& !(log[at] is Service) ==> whole == Run::<TreeView>::Stop(
                    StopView::Abort(AbortView::UnexpectedReply),
                )
                &&& log[at] matches Reply::Service(service) ==> {
                    &&& service.spec is None ==> whole == missing
                    &&& service.spec is Some && service.spec->0.cluster_ip is None ==> whole
                        == unsupported
                }
            }
        }),
{
}

} // verus!
