//! Where endpoints stand among the workloads of a service.
use crate::address::law_numbers_tell_addresses_apart;
use crate::children::{
    address_labels, container_names, name_list, pod_trees, pods_with, set_trees, sets_with,
    ChildrenView, DaemonSetView, DeploymentView, PodView, ReplicaSetView, StatefulSetView,
};
use crate::cluster::{DaemonSet, Deployment, Endpoint, Pod, ReplicaSet, StatefulSet};
use crate::ctx::Reply;
use crate::endpoints::lookup;
use crate::keyed::{
    distinct, found, get, law_put_is_got, law_put_keeps_keys_distinct, lemma_place, place, put,
};
use crate::policy::Backend;
use crate::protocol::{backend_run, endpoint_run, endpoints_run, metadata_run};
use crate::tree::{NodeView, TreeView};
use vstd::prelude::*;

verus! {

/// The way to a pod: the names of its outermost owner, of the replica set between them, and its
/// own.
pub enum Spot {
    Deployment { name: Seq<char>, set: Seq<char>, pod: Seq<char> },
    StatefulSet { name: Seq<char>, set: Seq<char>, pod: Seq<char> },
    DaemonSet { name: Seq<char>, pod: Seq<char> },
}

impl Spot {
    /// The name of the pod.
    pub open spec fn pod_name(self) -> Seq<char> {
        match self {
            Spot::Deployment { name, set, pod } => pod,
            Spot::StatefulSet { name, set, pod } => pod,
            Spot::DaemonSet { name, pod } => pod,
        }
    }
}

/// The text with which an address is listed in a pod, if it is.
pub open spec fn text_in_pods(
    pods: Seq<(Seq<char>, PodView)>,
    pod: Seq<char>,
    numbers: (bool, u128, u16),
) -> Option<Seq<char>> {
    match get(pods, pod) {
        None => None,
        Some(pod) => get(pod.addrs, numbers),
    }
}

/// The text with which an address is listed in a pod of a replica set, if it is.
pub open spec fn text_in_sets(
    sets: Seq<(Seq<char>, ReplicaSetView)>,
    set: Seq<char>,
    pod: Seq<char>,
    numbers: (bool, u128, u16),
) -> Option<Seq<char>> {
    match get(sets, set) {
        None => None,
        Some(set) => text_in_pods(set.pods, pod, numbers),
    }
}

impl ChildrenView {
    /// The text with which an address is listed at a spot, if it is.
    pub open spec fn text_at(self, spot: Spot, numbers: (bool, u128, u16)) -> Option<Seq<char>> {
        match spot {
            Spot::Deployment { name, set, pod } => match get(self.deploy, name) {
                None => None,
                Some(owner) => text_in_sets(owner.replicasets, set, pod, numbers),
            },
            Spot::StatefulSet { name, set, pod } => match get(self.sts, name) {
                None => None,
                Some(owner) => text_in_sets(owner.replicasets, set, pod, numbers),
            },
            Spot::DaemonSet { name, pod } => match get(self.ds, name) {
                None => None,
                Some(owner) => text_in_pods(owner.pods, pod, numbers),
            },
        }
    }
}

proof fn lemma_pods_with(
    pods: Seq<(Seq<char>, PodView)>,
    name: Seq<char>,
    pod: Pod,
    endpoint: Endpoint,
    other: Seq<char>,
    numbers: (bool, u128, u16),
)
    ensures
        text_in_pods(pods_with(pods, name, pod, endpoint), other, numbers) == if other == name
            && numbers == endpoint.addr.numbers() {
            Some(endpoint.text@)
        } else {
            text_in_pods(pods, other, numbers)
        },
{
    let known = found(pods, name, PodView { pod, addrs: Seq::empty() });
    let own = endpoint.addr.numbers();
    let listed = PodView { pod: known.pod, addrs: put(known.addrs, own, endpoint.text@) };
    law_put_is_got(pods, name, listed, other);
    law_put_is_got(known.addrs, own, endpoint.text@, numbers);
}

proof fn lemma_sets_with(
    sets: Seq<(Seq<char>, ReplicaSetView)>,
    name: Seq<char>,
    rs: ReplicaSet,
    pod_name: Seq<char>,
    pod: Pod,
    endpoint: Endpoint,
    other: Seq<char>,
    other_pod: Seq<char>,
    numbers: (bool, u128, u16),
)
    ensures
        text_in_sets(
            sets_with(sets, name, rs, pod_name, pod, endpoint),
            other,
            other_pod,
            numbers,
        ) == if other == name && other_pod == pod_name && numbers == endpoint.addr.numbers() {
            Some(endpoint.text@)
        } else {
            text_in_sets(sets, other, other_pod, numbers)
        },
{
    let known = found(sets, name, ReplicaSetView { rs, pods: Seq::empty() });
    let pods = pods_with(known.pods, pod_name, pod, endpoint);
    law_put_is_got(sets, name, ReplicaSetView { rs: known.rs, pods }, other);
    lemma_pods_with(known.pods, pod_name, pod, endpoint, other_pod, numbers);
}

/// An endpoint that is placed under a deployment is listed there, and all else stays.
pub proof fn law_in_deployment(
    children: ChildrenView,
    name: Seq<char>,
    deployment: Deployment,
    set_name: Seq<char>,
    rs: ReplicaSet,
    pod_name: Seq<char>,
    pod: Pod,
    endpoint: Endpoint,
    spot: Spot,
    numbers: (bool, u128, u16),
)
    ensures
        children.in_deployment(
            name,
            deployment,
            set_name,
            rs,
            pod_name,
            pod,
            endpoint,
        ).text_at(spot, numbers) == if spot == (Spot::Deployment {
            name,
            set: set_name,
            pod: pod_name,
        }) && numbers == endpoint.addr.numbers() {
            Some(endpoint.text@)
        } else {
            children.text_at(spot, numbers)
        },
{
    let fresh = DeploymentView { deployment, replicasets: Seq::empty() };
    let known = found(children.deploy, name, fresh);
    let sets = sets_with(known.replicasets, set_name, rs, pod_name, pod, endpoint);
    let filled = DeploymentView { deployment: known.deployment, replicasets: sets };
    if let Spot::Deployment { name: other, set: other_set, pod: other_pod } = spot {
        law_put_is_got(children.deploy, name, filled, other);
        lemma_sets_with(
            known.replicasets,
            set_name,
            rs,
            pod_name,
            pod,
            endpoint,
            other_set,
            other_pod,
            numbers,
        );
    }
}

/// An endpoint that is placed under a stateful set is listed there, and all else stays.
pub proof fn law_in_statefulset(
    children: ChildrenView,
    name: Seq<char>,
    statefulset: StatefulSet,
    set_name: Seq<char>,
    rs: ReplicaSet,
    pod_name: Seq<char>,
    pod: Pod,
    endpoint: Endpoint,
    spot: Spot,
    numbers: (bool, u128, u16),
)
    ensures
        children.in_statefulset(
            name,
            statefulset,
            set_name,
            rs,
            pod_name,
            pod,
            endpoint,
        ).text_at(spot, numbers) == if spot == (Spot::StatefulSet {
            name,
            set: set_name,
            pod: pod_name,
        }) && numbers == endpoint.addr.numbers() {
            Some(endpoint.text@)
        } else {
            children.text_at(spot, numbers)
        },
{
    let fresh = StatefulSetView { statefulset, replicasets: Seq::empty() };
    let known = found(children.sts, name, fresh);
    let sets = sets_with(known.replicasets, set_name, rs, pod_name, pod, endpoint);
    let filled = StatefulSetView { statefulset: known.statefulset, replicasets: sets };
    if let Spot::StatefulSet { name: other, set: other_set, pod: other_pod } = spot {
        law_put_is_got(children.sts, name, filled, other);
        lemma_sets_with(
            known.replicasets,
            set_name,
            rs,
            pod_name,
            pod,
            endpoint,
            other_set,
            other_pod,
            numbers,
        );
    }
}

/// An endpoint that is placed under a daemon set is listed there, and all else stays.
pub proof fn law_in_daemonset(
    children: ChildrenView,
    name: Seq<char>,
    daemonset: DaemonSet,
    pod_name: Seq<char>,
    pod: Pod,
    endpoint: Endpoint,
    spot: Spot,
    numbers: (bool, u128, u16),
)
    ensures
        children.in_daemonset(name, daemonset, pod_name, pod, endpoint).text_at(spot, numbers)
            == if spot == (Spot::DaemonSet { name, pod: pod_name }) && numbers
            == endpoint.addr.numbers() {
            Some(endpoint.text@)
        } else {
            children.text_at(spot, numbers)
        },
{
    let known = found(children.ds, name, DaemonSetView { daemonset, pods: Seq::empty() });
    let pods = pods_with(known.pods, pod_name, pod, endpoint);
    let filled = DaemonSetView { daemonset: known.daemonset, pods };
    if let Spot::DaemonSet { name: other, pod: other_pod } = spot {
        law_put_is_got(children.ds, name, filled, other);
        lemma_pods_with(known.pods, pod_name, pod, endpoint, other_pod, numbers);
    }
}

/// The spot at which an endpoint is placed.
pub open spec fn endpoint_spot(endpoint: Endpoint, log: Seq<Reply>, at: int) -> Spot {
    let name = lookup(endpoint.metric_labels@, "pod"@)->0;
    let pod = log[at]->Pod_0;
    let owner = pod.metadata.owner_references->0@[0];
    if owner.kind@ == "DaemonSet"@ {
        Spot::DaemonSet { name: owner.name@, pod: name }
    } else {
        let rs = log[at + 1]->ReplicaSet_0;
        let above = rs.metadata.owner_references->0@[0];
        if above.kind@ == "Deployment"@ {
            Spot::Deployment { name: above.name@, set: owner.name@, pod: name }
        } else {
            Spot::StatefulSet { name: above.name@, set: owner.name@, pod: name }
        }
    }
}

/// An endpoint is placed at one spot, in the pod that its label names, and all else stays.
pub proof fn law_endpoint_is_placed(
    children: ChildrenView,
    endpoint: Endpoint,
    log: Seq<Reply>,
    at: int,
    spot: Spot,
    numbers: (bool, u128, u16),
)
    requires
        endpoint_run(children, endpoint, log, at) is Done,
    ensures
        lookup(endpoint.metric_labels@, "pod"@) == Some(
            endpoint_spot(endpoint, log, at).pod_name(),
        ),
        endpoint_run(children, endpoint, log, at)->Done_0.text_at(spot, numbers) == if spot
            == endpoint_spot(endpoint, log, at) && numbers == endpoint.addr.numbers() {
            Some(endpoint.text@)
        } else {
            children.text_at(spot, numbers)
        },
{
    reveal_strlit("DaemonSet");
    reveal_strlit("ReplicaSet");
    let name = lookup(endpoint.metric_labels@, "pod"@)->0;
    let pod = log[at]->Pod_0;
    let owner = pod.metadata.owner_references->0@[0];
    if owner.kind@ == "DaemonSet"@ {
        assert("DaemonSet"@.len() != "ReplicaSet"@.len());
        law_in_daemonset(
            children,
            owner.name@,
            log[at + 1]->DaemonSet_0,
            name,
            pod,
            endpoint,
            spot,
            numbers,
        );
    } else {
        let rs = log[at + 1]->ReplicaSet_0;
        let above = rs.metadata.owner_references->0@[0];
        if above.kind@ == "Deployment"@ {
            law_in_deployment(
                children,
                above.name@,
                log[at + 2]->Deployment_0,
                owner.name@,
                rs,
                name,
                pod,
                endpoint,
                spot,
                numbers,
            );
        } else {
            law_in_statefulset(
                children,
                above.name@,
                log[at + 2]->StatefulSet_0,
                owner.name@,
                rs,
                name,
                pod,
                endpoint,
                spot,
                numbers,
            );
        }
    }
}

/// Every endpoint is listed in a pod of the name that it gives.
pub proof fn law_every_endpoint_is_listed(
    endpoints: Seq<Endpoint>,
    log: Seq<Reply>,
    at: int,
    i: int,
)
    requires
        endpoints_run(endpoints, log, at) is Done,
        0 <= i < endpoints.len(),
    ensures
        exists|spot: Spot|
            (#[trigger] endpoints_run(endpoints, log, at)->Done_0.text_at(
                spot,
                endpoints[i].addr.numbers(),
            )) is Some && lookup(endpoints[i].metric_labels@, "pod"@) == Some(spot.pod_name()),
    decreases endpoints.len(),
{
    let before = endpoints.drop_last();
    let last = endpoints.last();
    let numbers = endpoints[i].addr.numbers();
    let earlier = endpoints_run(before, log, at);
    let children = earlier->Done_0;
    let end = earlier->Done_1;
    let spot = if i < before.len() {
        law_every_endpoint_is_listed(before, log, at, i);
        choose|spot: Spot|
            (#[trigger] children.text_at(spot, before[i].addr.numbers())) is Some && lookup(
                before[i].metric_labels@,
                "pod"@,
            ) == Some(spot.pod_name())
    } else {
        endpoint_spot(last, log, end)
    };
    law_endpoint_is_placed(children, last, log, end, spot, numbers);
    assert(endpoints_run(endpoints, log, at)->Done_0.text_at(spot, numbers) is Some);
}

/// Whether one of `endpoints` has this address and this text, and names this pod.
pub open spec fn given(
    endpoints: Seq<Endpoint>,
    pod: Seq<char>,
    numbers: (bool, u128, u16),
    text: Seq<char>,
) -> bool {
    exists|i: int|
        0 <= i < endpoints.len() && (#[trigger] endpoints[i]).addr.numbers() == numbers
            && endpoints[i].text@ == text && lookup(endpoints[i].metric_labels@, "pod"@) == Some(
            pod,
        )
}

/// What is listed is an endpoint that was given, in a pod of the name that it gives.
pub proof fn law_only_endpoints_are_listed(
    endpoints: Seq<Endpoint>,
    log: Seq<Reply>,
    at: int,
    spot: Spot,
    numbers: (bool, u128, u16),
)
    requires
        endpoints_run(endpoints, log, at) is Done,
        endpoints_run(endpoints, log, at)->Done_0.text_at(spot, numbers) is Some,
    ensures
        given(
            endpoints,
            spot.pod_name(),
            numbers,
            endpoints_run(endpoints, log, at)->Done_0.text_at(spot, numbers)->0,
        ),
    decreases endpoints.len(),
{
    if endpoints.len() > 0 {
        let before = endpoints.drop_last();
        let last = endpoints.last();
        let earlier = endpoints_run(before, log, at);
        let children = earlier->Done_0;
        let end = earlier->Done_1;
        law_endpoint_is_placed(children, last, log, end, spot, numbers);
        if spot == endpoint_spot(last, log, end) && numbers == last.addr.numbers() {
            assert(endpoints[endpoints.len() - 1] == last);
        } else {
            law_only_endpoints_are_listed(before, log, at, spot, numbers);
            let text = children.text_at(spot, numbers)->0;
            let i = choose|i: int|
                0 <= i < before.len() && (#[trigger] before[i]).addr.numbers() == numbers
                    && before[i].text@ == text && lookup(before[i].metric_labels@, "pod"@) == Some(
                    spot.pod_name(),
                );
            assert(endpoints[i] == before[i]);
        }
    }
}

/// Whether no two endpoints have one address.
pub open spec fn addrs_differ(endpoints: Seq<Endpoint>) -> bool {
    forall|i: int, j: int|
        0 <= i < j < endpoints.len() ==> (#[trigger] endpoints[i]).addr != (
        #[trigger] endpoints[j]).addr
}

/// Where addresses differ an address is listed at one spot at most.
proof fn lemma_listed_at_one_spot(
    endpoints: Seq<Endpoint>,
    log: Seq<Reply>,
    at: int,
    spot: Spot,
    other: Spot,
    numbers: (bool, u128, u16),
)
    requires
        endpoints_run(endpoints, log, at) is Done,
        addrs_differ(endpoints),
        endpoints_run(endpoints, log, at)->Done_0.text_at(spot, numbers) is Some,
        endpoints_run(endpoints, log, at)->Done_0.text_at(other, numbers) is Some,
    ensures
        spot == other,
    decreases endpoints.len(),
{
    if endpoints.len() > 0 {
        let before = endpoints.drop_last();
        let last = endpoints.last();
        let earlier = endpoints_run(before, log, at);
        let children = earlier->Done_0;
        let end = earlier->Done_1;
        law_endpoint_is_placed(children, last, log, end, spot, numbers);
        law_endpoint_is_placed(children, last, log, end, other, numbers);
        assert forall|i: int, j: int| 0 <= i < j < before.len() implies (
        #[trigger] before[i]).addr != (#[trigger] before[j]).addr by {
            assert(before[i] == endpoints[i] && before[j] == endpoints[j]);
        }
        if numbers == last.addr.numbers() {
            lemma_new_address_is_not_listed(endpoints, log, at, spot);
            lemma_new_address_is_not_listed(endpoints, log, at, other);
        } else {
            lemma_listed_at_one_spot(before, log, at, spot, other, numbers);
        }
    }
}

/// An address that differs from all before it is not listed before it comes.
proof fn lemma_new_address_is_not_listed(
    endpoints: Seq<Endpoint>,
    log: Seq<Reply>,
    at: int,
    spot: Spot,
)
    requires
        endpoints.len() > 0,
        endpoints_run(endpoints.drop_last(), log, at) is Done,
        addrs_differ(endpoints),
    ensures
        endpoints_run(endpoints.drop_last(), log, at)->Done_0.text_at(
            spot,
            endpoints.last().addr.numbers(),
        ) is None,
{
    let before = endpoints.drop_last();
    let numbers = endpoints.last().addr.numbers();
    let children = endpoints_run(before, log, at)->Done_0;
    if children.text_at(spot, numbers) is Some {
        law_only_endpoints_are_listed(before, log, at, spot, numbers);
        let text = children.text_at(spot, numbers)->0;
        let i = choose|i: int|
            0 <= i < before.len() && (#[trigger] before[i]).addr.numbers() == numbers
                && before[i].text@ == text && lookup(before[i].metric_labels@, "pod"@) == Some(
                spot.pod_name(),
            );
        let n = endpoints.len() - 1;
        assert(endpoints[i] == before[i]);
        assert(endpoints[n] == endpoints.last());
        law_numbers_tell_addresses_apart(endpoints[i].addr, endpoints[n].addr);
        assert(endpoints[i].addr != endpoints[n].addr);
    }
}

/// Where addresses differ every endpoint is listed at one spot and at no other, with its text, in
/// a pod of the name that it gives.
pub proof fn law_endpoint_is_listed_at_one_spot(
    endpoints: Seq<Endpoint>,
    log: Seq<Reply>,
    at: int,
    i: int,
)
    requires
        endpoints_run(endpoints, log, at) is Done,
        addrs_differ(endpoints),
        0 <= i < endpoints.len(),
    ensures
        exists|spot: Spot|
            {
                &&& #[trigger] endpoints_run(endpoints, log, at)->Done_0.text_at(
                    spot,
                    endpoints[i].addr.numbers(),
                ) == Some(endpoints[i].text@)
                &&& lookup(endpoints[i].metric_labels@, "pod"@) == Some(spot.pod_name())
                &&& forall|other: Spot|
                    (#[trigger] endpoints_run(endpoints, log, at)->Done_0.text_at(
                        other,
                        endpoints[i].addr.numbers(),
                    )) is Some ==> other == spot
            },
{
    let children = endpoints_run(endpoints, log, at)->Done_0;
    let numbers = endpoints[i].addr.numbers();
    law_every_endpoint_is_listed(endpoints, log, at, i);
    let spot = choose|spot: Spot|
        (#[trigger] children.text_at(spot, numbers)) is Some && lookup(
            endpoints[i].metric_labels@,
            "pod"@,
        ) == Some(spot.pod_name());
    law_only_endpoints_are_listed(endpoints, log, at, spot, numbers);
    let text = children.text_at(spot, numbers)->0;
    let j = choose|j: int|
        0 <= j < endpoints.len() && (#[trigger] endpoints[j]).addr.numbers() == numbers
            && endpoints[j].text@ == text && lookup(endpoints[j].metric_labels@, "pod"@) == Some(
            spot.pod_name(),
        );
    law_numbers_tell_addresses_apart(endpoints[i].addr, endpoints[j].addr);
    assert(i == j);
    assert forall|other: Spot| (#[trigger] children.text_at(other, numbers)) is Some implies other
        == spot by {
        lemma_listed_at_one_spot(endpoints, log, at, spot, other, numbers);
    }
    assert(children.text_at(spot, numbers) == Some(endpoints[i].text@));
}

/// The line for an endpoint.
pub open spec fn endpoint_line(text: Seq<char>) -> NodeView {
    NodeView::Label("endpoint"@, text)
}

/// Whether one of `trees` shows a line.
pub open spec fn one_shows(trees: Seq<TreeView>, line: NodeView) -> bool {
    exists|i: int| 0 <= i < trees.len() && #[trigger] trees[i].shows(line)
}

/// A tree shows what a leaf shows that it has at its end.
proof fn lemma_with_all_shows(tree: TreeView, more: Seq<TreeView>, line: NodeView)
    requires
        one_shows(more, line),
    ensures
        tree.with_all(more).shows(line),
{
    let i = choose|i: int| 0 <= i < more.len() && #[trigger] more[i].shows(line);
    let at = tree.leaves.len() + i;
    assert(tree.with_all(more).leaves[at].shows(line));
}

proof fn lemma_pods_show(
    pods: Seq<(Seq<char>, PodView)>,
    pod: Seq<char>,
    numbers: (bool, u128, u16),
)
    requires
        text_in_pods(pods, pod, numbers) is Some,
    ensures
        one_shows(pod_trees(pods), endpoint_line(text_in_pods(pods, pod, numbers)->0)),
{
    let view = get(pods, pod)->0;
    let text = text_in_pods(pods, pod, numbers)->0;
    let line = endpoint_line(text);
    lemma_place(pods, pod);
    lemma_place(view.addrs, numbers);
    let labels = address_labels(view.addrs);
    assert(labels[place(view.addrs, numbers)].shows(line));
    let statuses = view.pod.status->0.container_statuses->0@;
    let ready = name_list("ready containers"@, container_names(statuses, true));
    let pending = name_list("pending containers"@, container_names(statuses, false));
    let tree = view.tree();
    let at = ready.len() + pending.len() + place(view.addrs, numbers);
    assert(tree.leaves[at as int] == labels[place(view.addrs, numbers)]);
    assert(tree.leaves[at as int].shows(line));
    assert(pod_trees(pods)[place(pods, pod)].shows(line));
}

proof fn lemma_sets_show(
    sets: Seq<(Seq<char>, ReplicaSetView)>,
    set: Seq<char>,
    pod: Seq<char>,
    numbers: (bool, u128, u16),
)
    requires
        text_in_sets(sets, set, pod, numbers) is Some,
    ensures
        one_shows(set_trees(sets), endpoint_line(text_in_sets(sets, set, pod, numbers)->0)),
{
    let view = get(sets, set)->0;
    let line = endpoint_line(text_in_sets(sets, set, pod, numbers)->0);
    lemma_place(sets, set);
    lemma_pods_show(view.pods, pod, numbers);
    let i = choose|i: int|
        0 <= i < pod_trees(view.pods).len() && #[trigger] pod_trees(view.pods)[i].shows(line);
    assert(view.tree().leaves =~= pod_trees(view.pods));
    assert(view.tree().leaves[i].shows(line));
    assert(set_trees(sets)[place(sets, set)].shows(line));
}

/// What is listed is shown.
pub proof fn law_listed_is_shown(
    children: ChildrenView,
    spot: Spot,
    numbers: (bool, u128, u16),
)
    requires
        children.text_at(spot, numbers) is Some,
    ensures
        one_shows(children.trees(), endpoint_line(children.text_at(spot, numbers)->0)),
{
    let line = endpoint_line(children.text_at(spot, numbers)->0);
    match spot {
        Spot::Deployment { name, set, pod } => {
            let view = get(children.deploy, name)->0;
            let at = place(children.deploy, name);
            lemma_place(children.deploy, name);
            lemma_sets_show(view.replicasets, set, pod, numbers);
            assert(view.tree().leaves =~= set_trees(view.replicasets));
            let i = choose|i: int|
                0 <= i < view.tree().leaves.len() && #[trigger] view.tree().leaves[i].shows(line);
            assert(view.tree().leaves[i].shows(line));
            assert(children.trees()[at] == view.tree());
            assert(children.trees()[at].shows(line));
        },
        Spot::StatefulSet { name, set, pod } => {
            let view = get(children.sts, name)->0;
            let at = children.deploy.len() + place(children.sts, name);
            lemma_place(children.sts, name);
            lemma_sets_show(view.replicasets, set, pod, numbers);
            assert(view.tree().leaves =~= set_trees(view.replicasets));
            let i = choose|i: int|
                0 <= i < view.tree().leaves.len() && #[trigger] view.tree().leaves[i].shows(line);
            assert(view.tree().leaves[i].shows(line));
            assert(children.trees()[at] == view.tree());
            assert(children.trees()[at].shows(line));
        },
        Spot::DaemonSet { name, pod } => {
            let view = get(children.ds, name)->0;
            let at = children.deploy.len() + children.sts.len() + place(children.ds, name);
            lemma_place(children.ds, name);
            lemma_pods_show(view.pods, pod, numbers);
            assert(view.tree().leaves =~= pod_trees(view.pods));
            let i = choose|i: int|
                0 <= i < view.tree().leaves.len() && #[trigger] view.tree().leaves[i].shows(line);
            assert(view.tree().leaves[i].shows(line));
            assert(children.trees()[at] == view.tree());
            assert(children.trees()[at].shows(line));
        },
    }
}

/// Whether endpoints with one address have one text.
pub open spec fn texts_agree(endpoints: Seq<Endpoint>) -> bool {
    forall|i: int, j: int|
        0 <= i < endpoints.len() && 0 <= j < endpoints.len() && (
        #[trigger] endpoints[i]).addr.numbers() == (#[trigger] endpoints[j]).addr.numbers()
            ==> endpoints[i].text@ == endpoints[j].text@
}

/// The node for a backend shows every endpoint that the destination service gave for it.
pub proof fn law_backend_shows_every_endpoint(
    backend: Backend,
    log: Seq<Reply>,
    at: int,
    i: int,
)
    requires
        backend_run(backend, log, at) is Done,
        ({
            let endpoints = log[metadata_run(backend.metadata->0, log, at)->Done_1]->Endpoints_0@;
            texts_agree(endpoints) && 0 <= i < endpoints.len()
        }),
    ensures
        ({
            let endpoints = log[metadata_run(backend.metadata->0, log, at)->Done_1]->Endpoints_0@;
            backend_run(backend, log, at)->Done_0.shows(endpoint_line(endpoints[i].text@))
        }),
{
    let from = metadata_run(backend.metadata->0, log, at)->Done_1;
    let endpoints = log[from]->Endpoints_0@;
    let children = endpoints_run(endpoints, log, from + 1)->Done_0;
    let numbers = endpoints[i].addr.numbers();
    law_every_endpoint_is_listed(endpoints, log, from + 1, i);
    let spot = choose|spot: Spot|
        (#[trigger] children.text_at(spot, numbers)) is Some && lookup(
            endpoints[i].metric_labels@,
            "pod"@,
        ) == Some(spot.pod_name());
    law_only_endpoints_are_listed(endpoints, log, from + 1, spot, numbers);
    let text = children.text_at(spot, numbers)->0;
    let j = choose|j: int|
        0 <= j < endpoints.len() && (#[trigger] endpoints[j]).addr.numbers() == numbers
            && endpoints[j].text@ == text && lookup(endpoints[j].metric_labels@, "pod"@) == Some(
            spot.pod_name(),
        );
    assert(endpoints[i].text@ == endpoints[j].text@);
    law_listed_is_shown(children, spot, numbers);
    let tree = backend_run(backend, log, at)->Done_0;
    let before = TreeView {
        root: tree.root,
        leaves: tree.leaves.take(tree.leaves.len() - children.trees().len()),
    };
    assert(tree.leaves =~= before.with_all(children.trees()).leaves);
    lemma_with_all_shows(before, children.trees(), endpoint_line(text));
}

/// Whether every name of a pod, and every address in one, comes once.
pub open spec fn pods_tidy(pods: Seq<(Seq<char>, PodView)>) -> bool {
    &&& distinct(pods)
    &&& forall|i: int| 0 <= i < pods.len() ==> distinct((#[trigger] pods[i]).1.addrs)
}

/// Whether every name of a replica set comes once, and so on in each.
pub open spec fn sets_tidy(sets: Seq<(Seq<char>, ReplicaSetView)>) -> bool {
    &&& distinct(sets)
    &&& forall|i: int| 0 <= i < sets.len() ==> pods_tidy((#[trigger] sets[i]).1.pods)
}

impl ChildrenView {
    /// Whether nothing is listed twice: every name comes once at its place, and every address
    /// once in its pod.
    pub open spec fn tidy(self) -> bool {
        &&& distinct(self.deploy)
        &&& distinct(self.sts)
        &&& distinct(self.ds)
        &&& forall|i: int|
            0 <= i < self.deploy.len() ==> sets_tidy((#[trigger] self.deploy[i]).1.replicasets)
        &&& forall|i: int|
            0 <= i < self.sts.len() ==> sets_tidy((#[trigger] self.sts[i]).1.replicasets)
        &&& forall|i: int| 0 <= i < self.ds.len() ==> pods_tidy((#[trigger] self.ds[i]).1.pods)
    }
}

proof fn lemma_pods_tidy(
    pods: Seq<(Seq<char>, PodView)>,
    name: Seq<char>,
    pod: Pod,
    endpoint: Endpoint,
)
    requires
        pods_tidy(pods),
    ensures
        pods_tidy(pods_with(pods, name, pod, endpoint)),
{
    let known = found(pods, name, PodView { pod, addrs: Seq::empty() });
    let numbers = endpoint.addr.numbers();
    let listed = PodView { pod: known.pod, addrs: put(known.addrs, numbers, endpoint.text@) };
    lemma_place(pods, name);
    law_put_keeps_keys_distinct(known.addrs, numbers, endpoint.text@);
    law_put_keeps_keys_distinct(pods, name, listed);
}

proof fn lemma_sets_tidy(
    sets: Seq<(Seq<char>, ReplicaSetView)>,
    name: Seq<char>,
    rs: ReplicaSet,
    pod_name: Seq<char>,
    pod: Pod,
    endpoint: Endpoint,
)
    requires
        sets_tidy(sets),
    ensures
        sets_tidy(sets_with(sets, name, rs, pod_name, pod, endpoint)),
{
    let known = found(sets, name, ReplicaSetView { rs, pods: Seq::empty() });
    let filled = ReplicaSetView {
        rs: known.rs,
        pods: pods_with(known.pods, pod_name, pod, endpoint),
    };
    lemma_place(sets, name);
    lemma_pods_tidy(known.pods, pod_name, pod, endpoint);
    law_put_keeps_keys_distinct(sets, name, filled);
}

proof fn lemma_endpoint_tidy(
    children: ChildrenView,
    endpoint: Endpoint,
    log: Seq<Reply>,
    at: int,
)
    requires
        children.tidy(),
        endpoint_run(children, endpoint, log, at) is Done,
    ensures
        endpoint_run(children, endpoint, log, at)->Done_0.tidy(),
{
    assert forall|name: Seq<char>, rs: ReplicaSet, pod_name: Seq<char>, pod: Pod, sets: Seq<
        (Seq<char>, ReplicaSetView),
    >|
        sets_tidy(sets) implies sets_tidy(
        #[trigger] sets_with(sets, name, rs, pod_name, pod, endpoint),
    ) by {
        lemma_sets_tidy(sets, name, rs, pod_name, pod, endpoint);
    }
    assert forall|name: Seq<char>, pod: Pod, pods: Seq<(Seq<char>, PodView)>|
        pods_tidy(pods) implies pods_tidy(#[trigger] pods_with(pods, name, pod, endpoint)) by {
        lemma_pods_tidy(pods, name, pod, endpoint);
    }
    assert forall|name: Seq<char>, item: DeploymentView|
        distinct(#[trigger] put(children.deploy, name, item)) && 0 <= place(
            children.deploy,
            name,
        ) by {
        lemma_place(children.deploy, name);
        law_put_keeps_keys_distinct(children.deploy, name, item);
    }
    assert forall|name: Seq<char>, item: StatefulSetView|
        distinct(#[trigger] put(children.sts, name, item)) && 0 <= place(children.sts, name) by {
        lemma_place(children.sts, name);
        law_put_keeps_keys_distinct(children.sts, name, item);
    }
    assert forall|name: Seq<char>, item: DaemonSetView|
        distinct(#[trigger] put(children.ds, name, item)) && 0 <= place(children.ds, name) by {
        lemma_place(children.ds, name);
        law_put_keeps_keys_distinct(children.ds, name, item);
    }
}

/// However the endpoints come, nothing is listed twice.
pub proof fn law_nothing_is_listed_twice(endpoints: Seq<Endpoint>, log: Seq<Reply>, at: int)
    requires
        endpoints_run(endpoints, log, at) is Done,
    ensures
        endpoints_run(endpoints, log, at)->Done_0.tidy(),
    decreases endpoints.len(),
{
    if endpoints.len() > 0 {
        let before = endpoints.drop_last();
        law_nothing_is_listed_twice(before, log, at);
        let earlier = endpoints_run(before, log, at);
        lemma_endpoint_tidy(earlier->Done_0, endpoints.last(), log, earlier->Done_1);
    }
}

/// Whether there are pods, and every pod has an address.
pub open spec fn pods_filled(pods: Seq<(Seq<char>, PodView)>) -> bool {
    &&& pods.len() > 0
    &&& forall|i: int| 0 <= i < pods.len() ==> (#[trigger] pods[i]).1.addrs.len() > 0
}

/// Whether there are replica sets, and every one has pods with addresses.
pub open spec fn sets_filled(sets: Seq<(Seq<char>, ReplicaSetView)>) -> bool {
    &&& sets.len() > 0
    &&& forall|i: int| 0 <= i < sets.len() ==> pods_filled((#[trigger] sets[i]).1.pods)
}

impl ChildrenView {
    /// Whether no workload is without an endpoint: every deployment and stateful set has replica
    /// sets, those and daemon sets have pods, and those have addresses.
    pub open spec fn filled(self) -> bool {
        &&& forall|i: int|
            0 <= i < self.deploy.len() ==> sets_filled((#[trigger] self.deploy[i]).1.replicasets)
        &&& forall|i: int|
            0 <= i < self.sts.len() ==> sets_filled((#[trigger] self.sts[i]).1.replicasets)
        &&& forall|i: int| 0 <= i < self.ds.len() ==> pods_filled((#[trigger] self.ds[i]).1.pods)
    }
}

proof fn lemma_pods_filled(
    pods: Seq<(Seq<char>, PodView)>,
    name: Seq<char>,
    pod: Pod,
    endpoint: Endpoint,
)
    requires
        pods.len() > 0 ==> pods_filled(pods),
    ensures
        pods_filled(pods_with(pods, name, pod, endpoint)),
{
    let known = found(pods, name, PodView { pod, addrs: Seq::empty() });
    lemma_place(pods, name);
    lemma_place(known.addrs, endpoint.addr.numbers());
}

proof fn lemma_sets_filled(
    sets: Seq<(Seq<char>, ReplicaSetView)>,
    name: Seq<char>,
    rs: ReplicaSet,
    pod_name: Seq<char>,
    pod: Pod,
    endpoint: Endpoint,
)
    requires
        sets.len() > 0 ==> sets_filled(sets),
    ensures
        sets_filled(sets_with(sets, name, rs, pod_name, pod, endpoint)),
{
    let known = found(sets, name, ReplicaSetView { rs, pods: Seq::empty() });
    lemma_place(sets, name);
    lemma_pods_filled(known.pods, pod_name, pod, endpoint);
}

proof fn lemma_endpoint_filled(
    children: ChildrenView,
    endpoint: Endpoint,
    log: Seq<Reply>,
    at: int,
)
    requires
        children.filled(),
        endpoint_run(children, endpoint, log, at) is Done,
    ensures
        endpoint_run(children, endpoint, log, at)->Done_0.filled(),
{
    assert forall|name: Seq<char>, rs: ReplicaSet, pod_name: Seq<char>, pod: Pod, sets: Seq<
        (Seq<char>, ReplicaSetView),
    >|
        sets.len() > 0 ==> sets_filled(sets) implies sets_filled(
        #[trigger] sets_with(sets, name, rs, pod_name, pod, endpoint),
    ) by {
        lemma_sets_filled(sets, name, rs, pod_name, pod, endpoint);
    }
    assert forall|name: Seq<char>, pod: Pod, pods: Seq<(Seq<char>, PodView)>|
        pods.len() > 0 ==> pods_filled(pods) implies pods_filled(
        #[trigger] pods_with(pods, name, pod, endpoint),
    ) by {
        lemma_pods_filled(pods, name, pod, endpoint);
    }
    assert forall|name: Seq<char>| 0 <= #[trigger] place(children.deploy, name) by {
        lemma_place(children.deploy, name);
    }
    assert forall|name: Seq<char>| 0 <= #[trigger] place(children.sts, name) by {
        lemma_place(children.sts, name);
    }
    assert forall|name: Seq<char>| 0 <= #[trigger] place(children.ds, name) by {
        lemma_place(children.ds, name);
    }
}

/// However the endpoints come, no workload is without one.
pub proof fn law_no_workload_is_empty(endpoints: Seq<Endpoint>, log: Seq<Reply>, at: int)
    requires
        endpoints_run(endpoints, log, at) is Done,
    ensures
        endpoints_run(endpoints, log, at)->Done_0.filled(),
    decreases endpoints.len(),
{
    if endpoints.len() > 0 {
        let before = endpoints.drop_last();
        law_no_workload_is_empty(before, log, at);
        let earlier = endpoints_run(before, log, at);
        lemma_endpoint_filled(earlier->Done_0, endpoints.last(), log, earlier->Done_1);
    }
}

} // verus!
