//! The workloads behind a service: which pods its endpoints are in, and whose pods they are.
use crate::cluster::{
    ContainerStatus, DaemonSet, Deployment, Endpoint, Pod, ReplicaSet, StatefulSet,
};
use crate::keyed::{found, put, Kept, Keyed};
use crate::text::{
    append_decimal, append_signed, decimal, join, join_texts, signed_decimal, texts,
};
use crate::tree::{label, node, NodeView, TraceNode, TraceTree, TreeView};
use indexmap::IndexMap;
use vstd::prelude::*;
use vstd::string::*;

verus! {

/// The entries of a map from addresses, as numbers, to their texts, in the map's order.
pub uninterp spec fn listed(map: IndexMap<(bool, u128, u16), String>) -> Seq<
    ((bool, u128, u16), Seq<char>),
>;

/// `IndexMap::new`: a map without entries.
#[verifier::external_body]
fn no_addresses() -> (map: IndexMap<(bool, u128, u16), String>)
    ensures
        listed(map) == Seq::<((bool, u128, u16), Seq<char>)>::empty(),
{
    IndexMap::new()
}

/// `IndexMap::insert`: the value takes the place of the one that the key had, or comes in a new
/// last entry.
#[verifier::external_body]
fn list_address(
    map: &mut IndexMap<(bool, u128, u16), String>,
    numbers: (bool, u128, u16),
    text: String,
)
    ensures
        listed(*final(map)) == put(listed(*old(map)), numbers, text@),
{
    map.insert(numbers, text);
}

/// `IndexMap::values`: the values in the map's order.
#[verifier::external_body]
fn listed_texts(map: &IndexMap<(bool, u128, u16), String>) -> (values: Vec<String>)
    ensures
        texts(values@) == listed(*map).map_values(
            |entry: ((bool, u128, u16), Seq<char>)| entry.1,
        ),
{
    map.values().cloned().collect()
}

/// A pod, and the addresses of the endpoints in it.
pub struct PodHierarchy<'a> {
    pub pod: &'a Pod,
    pub addrs: IndexMap<(bool, u128, u16), String>,
}

/// What a [`PodHierarchy`] holds.
pub struct PodView {
    pub pod: Pod,
    pub addrs: Seq<((bool, u128, u16), Seq<char>)>,
}

impl<'a> View for PodHierarchy<'a> {
    type V = PodView;

    open spec fn view(&self) -> PodView {
        PodView { pod: *self.pod, addrs: listed(self.addrs) }
    }
}

impl<'a> Kept for PodHierarchy<'a> {
    open spec fn sound(&self) -> bool {
        true
    }
}

/// The names of the containers that are ready, or of those that are not, in order.
pub open spec fn container_names(statuses: Seq<ContainerStatus>, ready: bool) -> Seq<Seq<char>>
    decreases statuses.len(),
{
    if statuses.len() == 0 {
        Seq::empty()
    } else if statuses.last().ready == ready {
        container_names(statuses.drop_last(), ready).push(statuses.last().name@)
    } else {
        container_names(statuses.drop_last(), ready)
    }
}

/// Every container is ready or it is not.
pub proof fn law_containers_split(statuses: Seq<ContainerStatus>)
    ensures
        container_names(statuses, true).len() + container_names(statuses, false).len()
            == statuses.len(),
    decreases statuses.len(),
{
    if statuses.len() > 0 {
        law_containers_split(statuses.drop_last());
    }
}

fn names_of_containers(statuses: &Vec<ContainerStatus>, ready: bool) -> (names: Vec<String>)
    ensures
        texts(names@) == container_names(statuses@, ready),
{
    let mut names: Vec<String> = Vec::new();
    let mut i: usize = 0;
    assert(texts(names@) =~= container_names(statuses@.take(0), ready));
    while i < statuses.len()
        invariant
            i <= statuses.len(),
            texts(names@) == container_names(statuses@.take(i as int), ready),
        decreases statuses.len() - i,
    {
        let ghost before = names@;
        assert(statuses@.take(i + 1).drop_last() =~= statuses@.take(i as int));
        if statuses[i].ready == ready {
            names.push(statuses[i].name.clone());
            assert(texts(names@) =~= texts(before).push(statuses@[i as int].name@));
        }
        i += 1;
    }
    assert(statuses@.take(i as int) =~= statuses@);
    names
}

/// A label that lists `names`, where there are any.
pub open spec fn name_list(key: Seq<char>, names: Seq<Seq<char>>) -> Seq<TreeView> {
    if names.len() == 0 {
        Seq::empty()
    } else {
        seq![label(key, join(names, ", "@))]
    }
}

/// A label for every address.
pub open spec fn address_labels(addrs: Seq<((bool, u128, u16), Seq<char>)>) -> Seq<TreeView> {
    Seq::new(addrs.len(), |i: int| label("endpoint"@, addrs[i].1))
}

impl PodView {
    /// Whether the pod says what is shown of it.
    pub open spec fn complete(self) -> bool {
        &&& self.pod.status is Some
        &&& self.pod.status->0.container_statuses is Some
        &&& self.pod.metadata.name is Some
    }

    /// How the pod is shown.
    pub open spec fn tree(self) -> TreeView {
        let statuses = self.pod.status->0.container_statuses->0@;
        let ready = container_names(statuses, true);
        let pending = container_names(statuses, false);
        node(
            "pod "@ + self.pod.metadata.name->0@ + " ("@ + decimal(ready.len()) + "/"@ + decimal(
                statuses.len(),
            ) + " containers ready)"@,
        ).with_all(name_list("ready containers"@, ready)).with_all(
            name_list("pending containers"@, pending),
        ).with_all(address_labels(self.addrs))
    }
}

impl<'a> PodHierarchy<'a> {
    /// Whether the pod says what is shown of it.
    pub fn is_complete(&self) -> (r: bool)
        ensures
            r == self@.complete(),
    {
        match &self.pod.status {
            Some(status) => status.container_statuses.is_some() && self.pod.metadata.name.is_some(),
            None => false,
        }
    }

    /// Shows the pod below `root`.
    pub fn add_to_tree(&self, root: &mut TraceTree)
        requires
            self@.complete(),
        ensures
            final(root)@ == old(root)@.with(self@.tree()),
    {
        let statuses = self.pod.status.as_ref().unwrap().container_statuses.as_ref().unwrap();
        let ready = names_of_containers(statuses, true);
        let pending = names_of_containers(statuses, false);
        proof {
            law_containers_split(statuses@);
            assert(texts(ready@).len() + texts(pending@).len() == statuses.len());
        }
        let mut text = "pod ".to_owned();
        text.append(self.pod.metadata.name.as_ref().unwrap().as_str());
        text.append(" (");
        append_decimal(&mut text, ready.len() as u64);
        text.append("/");
        append_decimal(&mut text, (ready.len() + pending.len()) as u64);
        text.append(" containers ready)");
        let mut tree = TraceNode::node(text);
        let ghost heading = tree@;
        if ready.len() > 0 {
            tree.push(TraceNode::label("ready containers".to_owned(), join_texts(&ready, ", ")));
        }
        assert(tree@.leaves =~= heading.with_all(
            name_list("ready containers"@, texts(ready@)),
        ).leaves);
        let ghost with_ready = tree@;
        if pending.len() > 0 {
            tree.push(
                TraceNode::label("pending containers".to_owned(), join_texts(&pending, ", ")),
            );
        }
        assert(tree@.leaves =~= with_ready.with_all(
            name_list("pending containers"@, texts(pending@)),
        ).leaves);
        let ghost with_pending = tree@;
        let addrs = listed_texts(&self.addrs);
        assert(texts(addrs@).len() == addrs@.len());
        let ghost labels = address_labels(listed(self.addrs));
        let mut i: usize = 0;
        assert(tree@.leaves =~= with_pending.with_all(labels.take(0)).leaves);
        while i < addrs.len()
            invariant
                i <= addrs.len(),
                labels == address_labels(listed(self.addrs)),
                addrs@.len() == listed(self.addrs).len(),
                texts(addrs@) == listed(self.addrs).map_values(
                    |entry: ((bool, u128, u16), Seq<char>)| entry.1,
                ),
                tree@ == with_pending.with_all(labels.take(i as int)),
            decreases addrs.len() - i,
        {
            assert(texts(addrs@)[i as int] == listed(self.addrs)[i as int].1);
            tree.push(TraceNode::label("endpoint".to_owned(), addrs[i].clone()));
            i += 1;
            assert(tree@.leaves =~= with_pending.with_all(labels.take(i as int)).leaves);
        }
        assert(labels.take(i as int) =~= labels);
        root.push(tree);
    }
}

/// The pod trees of `pods`, in order.
pub open spec fn pod_trees(pods: Seq<(Seq<char>, PodView)>) -> Seq<TreeView> {
    Seq::new(pods.len(), |i: int| pods[i].1.tree())
}

/// Whether every pod says what is shown of it.
pub open spec fn pods_complete(pods: Seq<(Seq<char>, PodView)>) -> bool {
    forall|i: int| 0 <= i < pods.len() ==> (#[trigger] pods[i]).1.complete()
}

/// `pods` with `endpoint` listed in the pod of that name, which is `pod` where it is new.
pub open spec fn pods_with(
    pods: Seq<(Seq<char>, PodView)>,
    name: Seq<char>,
    pod: Pod,
    endpoint: Endpoint,
) -> Seq<(Seq<char>, PodView)> {
    let known = found(pods, name, PodView { pod, addrs: Seq::empty() });
    put(
        pods,
        name,
        PodView {
            pod: known.pod,
            addrs: put(known.addrs, endpoint.addr.numbers(), endpoint.text@),
        },
    )
}

fn check_pods(pods: &Keyed<PodHierarchy<'_>>) -> (r: bool)
    requires
        pods.sound(),
    ensures
        r == pods_complete(pods@),
{
    let items = pods.in_order();
    let mut i: usize = 0;
    while i < items.len()
        invariant
            i <= items@.len(),
            items@.len() == pods@.len(),
            forall|j: int| 0 <= j < items@.len() ==> (#[trigger] items@[j])@ == pods@[j].1,
            forall|j: int| 0 <= j < i ==> (#[trigger] pods@[j]).1.complete(),
        decreases items.len() - i,
    {
        if !items[i].is_complete() {
            assert(!pods@[i as int].1.complete());
            return false;
        }
        i += 1;
    }
    true
}

fn add_pods(pods: &Keyed<PodHierarchy<'_>>, root: &mut TraceTree)
    requires
        pods.sound(),
        pods_complete(pods@),
    ensures
        final(root)@ == old(root)@.with_all(pod_trees(pods@)),
{
    let items = pods.in_order();
    let mut i: usize = 0;
    assert(root@.leaves =~= old(root)@.with_all(pod_trees(pods@).take(0)).leaves);
    while i < items.len()
        invariant
            i <= items@.len(),
            items@.len() == pods@.len(),
            pods_complete(pods@),
            forall|j: int| 0 <= j < items@.len() ==> (#[trigger] items@[j])@ == pods@[j].1,
            root@ == old(root)@.with_all(pod_trees(pods@).take(i as int)),
        decreases items.len() - i,
    {
        assert(pods@[i as int].1.complete());
        items[i].add_to_tree(root);
        i += 1;
        assert(root@.leaves =~= old(root)@.with_all(pod_trees(pods@).take(i as int)).leaves);
    }
    assert(pod_trees(pods@).take(i as int) =~= pod_trees(pods@));
}

fn place_pod<'a>(
    pods: &mut Keyed<PodHierarchy<'a>>,
    name: &String,
    pod: &'a Pod,
    endpoint: &Endpoint,
)
    requires
        old(pods).sound(),
    ensures
        final(pods).sound(),
        final(pods)@ == pods_with(old(pods)@, name@, *pod, *endpoint),
{
    let slot = pods.entry_or(name.clone(), PodHierarchy { pod, addrs: no_addresses() });
    list_address(&mut slot.addrs, endpoint.addr.to_numbers(), endpoint.text.clone());
}

/// A replica set and its pods.
pub struct ReplicaSetHierarchy<'a> {
    pub rs: &'a ReplicaSet,
    pub pods: Keyed<PodHierarchy<'a>>,
}

/// What a [`ReplicaSetHierarchy`] holds.
pub struct ReplicaSetView {
    pub rs: ReplicaSet,
    pub pods: Seq<(Seq<char>, PodView)>,
}

impl<'a> View for ReplicaSetHierarchy<'a> {
    type V = ReplicaSetView;

    open spec fn view(&self) -> ReplicaSetView {
        ReplicaSetView { rs: *self.rs, pods: self.pods@ }
    }
}

impl<'a> Kept for ReplicaSetHierarchy<'a> {
    open spec fn sound(&self) -> bool {
        self.pods.sound()
    }
}

impl ReplicaSetView {
    /// Whether the replica set and its pods say what is shown of them.
    pub open spec fn complete(self) -> bool {
        &&& self.rs.status is Some
        &&& self.rs.metadata.name is Some
        &&& pods_complete(self.pods)
    }

    /// How the replica set is shown. One that does not say how many replicas are available has
    /// none.
    pub open spec fn tree(self) -> TreeView {
        let status = self.rs.status->0;
        let available: int = match status.available_replicas {
            Some(n) => n as int,
            None => 0,
        };
        node(
            "replicaset "@ + self.rs.metadata.name->0@ + " ("@ + signed_decimal(available) + "/"@
                + signed_decimal(status.replicas as int) + " replicas available)"@,
        ).with_all(pod_trees(self.pods))
    }
}

impl<'a> ReplicaSetHierarchy<'a> {
    /// Whether the replica set and its pods say what is shown of them.
    pub fn is_complete(&self) -> (r: bool)
        requires
            self.sound(),
        ensures
            r == self@.complete(),
    {
        self.rs.status.is_some() && self.rs.metadata.name.is_some() && check_pods(&self.pods)
    }

    /// Shows the replica set below `root`.
    pub fn add_to_tree(&self, root: &mut TraceTree)
        requires
            self.sound(),
            self@.complete(),
        ensures
            final(root)@ == old(root)@.with(self@.tree()),
    {
        let status = self.rs.status.as_ref().unwrap();
        let replicas: i32 = status.replicas;
        let available: i32 = match status.available_replicas {
            Some(n) => n,
            None => 0,
        };
        let mut text = "replicaset ".to_owned();
        text.append(self.rs.metadata.name.as_ref().unwrap().as_str());
        text.append(" (");
        append_signed(&mut text, available);
        text.append("/");
        append_signed(&mut text, replicas);
        text.append(" replicas available)");
        let mut tree = TraceNode::node(text);
        add_pods(&self.pods, &mut tree);
        root.push(tree);
    }
}

/// The trees of `sets`, in order.
pub open spec fn set_trees(sets: Seq<(Seq<char>, ReplicaSetView)>) -> Seq<TreeView> {
    Seq::new(sets.len(), |i: int| sets[i].1.tree())
}

/// Whether every replica set says what is shown of it.
pub open spec fn sets_complete(sets: Seq<(Seq<char>, ReplicaSetView)>) -> bool {
    forall|i: int| 0 <= i < sets.len() ==> (#[trigger] sets[i]).1.complete()
}

/// `sets` with `endpoint` listed in a pod of the set of that name, which is `rs` where it is
/// new.
pub open spec fn sets_with(
    sets: Seq<(Seq<char>, ReplicaSetView)>,
    set_name: Seq<char>,
    rs: ReplicaSet,
    pod_name: Seq<char>,
    pod: Pod,
    endpoint: Endpoint,
) -> Seq<(Seq<char>, ReplicaSetView)> {
    let known = found(sets, set_name, ReplicaSetView { rs, pods: Seq::empty() });
    put(
        sets,
        set_name,
        ReplicaSetView { rs: known.rs, pods: pods_with(known.pods, pod_name, pod, endpoint) },
    )
}

fn check_sets(sets: &Keyed<ReplicaSetHierarchy<'_>>) -> (r: bool)
    requires
        sets.sound(),
    ensures
        r == sets_complete(sets@),
{
    let items = sets.in_order();
    let mut i: usize = 0;
    while i < items.len()
        invariant
            i <= items@.len(),
            items@.len() == sets@.len(),
            forall|j: int|
                0 <= j < items@.len() ==> (#[trigger] items@[j])@ == sets@[j].1
                    && items@[j].sound(),
            forall|j: int| 0 <= j < i ==> (#[trigger] sets@[j]).1.complete(),
        decreases items.len() - i,
    {
        if !items[i].is_complete() {
            assert(!sets@[i as int].1.complete());
            return false;
        }
        i += 1;
    }
    true
}

fn add_sets(sets: &Keyed<ReplicaSetHierarchy<'_>>, root: &mut TraceTree)
    requires
        sets.sound(),
        sets_complete(sets@),
    ensures
        final(root)@ == old(root)@.with_all(set_trees(sets@)),
{
    let items = sets.in_order();
    let mut i: usize = 0;
    assert(root@.leaves =~= old(root)@.with_all(set_trees(sets@).take(0)).leaves);
    while i < items.len()
        invariant
            i <= items@.len(),
            items@.len() == sets@.len(),
            sets_complete(sets@),
            forall|j: int|
                0 <= j < items@.len() ==> (#[trigger] items@[j])@ == sets@[j].1
                    && items@[j].sound(),
            root@ == old(root)@.with_all(set_trees(sets@).take(i as int)),
        decreases items.len() - i,
    {
        assert(sets@[i as int].1.complete());
        items[i].add_to_tree(root);
        i += 1;
        assert(root@.leaves =~= old(root)@.with_all(set_trees(sets@).take(i as int)).leaves);
    }
    assert(set_trees(sets@).take(i as int) =~= set_trees(sets@));
}

fn place_in_set<'a>(
    sets: &mut Keyed<ReplicaSetHierarchy<'a>>,
    set_name: &String,
    rs: &'a ReplicaSet,
    pod_name: &String,
    pod: &'a Pod,
    endpoint: &Endpoint,
)
    requires
        old(sets).sound(),
    ensures
        final(sets).sound(),
        final(sets)@ == sets_with(old(sets)@, set_name@, *rs, pod_name@, *pod, *endpoint),
{
    let slot = sets.entry_or(set_name.clone(), ReplicaSetHierarchy { rs, pods: Keyed::new() });
    place_pod(&mut slot.pods, pod_name, pod, endpoint);
}

/// A deployment and its replica sets.
pub struct DeploymentHierarchy<'a> {
    pub deployment: &'a Deployment,
    pub replicasets: Keyed<ReplicaSetHierarchy<'a>>,
}

/// What a [`DeploymentHierarchy`] holds.
pub struct DeploymentView {
    pub deployment: Deployment,
    pub replicasets: Seq<(Seq<char>, ReplicaSetView)>,
}

impl<'a> View for DeploymentHierarchy<'a> {
    type V = DeploymentView;

    open spec fn view(&self) -> DeploymentView {
        DeploymentView { deployment: *self.deployment, replicasets: self.replicasets@ }
    }
}

impl<'a> Kept for DeploymentHierarchy<'a> {
    open spec fn sound(&self) -> bool {
        self.replicasets.sound()
    }
}

impl DeploymentView {
    /// Whether all that is shown below the root is there.
    pub open spec fn complete(self) -> bool {
        self.deployment.metadata.name is Some && sets_complete(self.replicasets)
    }

    /// How the deployment is shown.
    pub open spec fn tree(self) -> TreeView {
        node("deployment "@ + self.deployment.metadata.name->0@).with_all(
            set_trees(self.replicasets),
        )
    }
}

impl<'a> DeploymentHierarchy<'a> {
    /// Whether all that is shown below the root is there.
    pub fn is_complete(&self) -> (r: bool)
        requires
            self.sound(),
        ensures
            r == self@.complete(),
    {
        self.deployment.metadata.name.is_some() && check_sets(&self.replicasets)
    }

    /// Shows the deployment below `root`.
    pub fn add_to_tree(&self, root: &mut TraceTree)
        requires
            self.sound(),
            self@.complete(),
        ensures
            final(root)@ == old(root)@.with(self@.tree()),
    {
        let mut text = "deployment ".to_owned();
        text.append(self.deployment.metadata.name.as_ref().unwrap().as_str());
        let mut tree = TraceNode::node(text);
        add_sets(&self.replicasets, &mut tree);
        root.push(tree);
    }
}

/// A stateful set and the replica sets that belong to it.
pub struct StatefulSetHierarchy<'a> {
    pub statefulset: &'a StatefulSet,
    pub replicasets: Keyed<ReplicaSetHierarchy<'a>>,
}

/// What a [`StatefulSetHierarchy`] holds.
pub struct StatefulSetView {
    pub statefulset: StatefulSet,
    pub replicasets: Seq<(Seq<char>, ReplicaSetView)>,
}

impl<'a> View for StatefulSetHierarchy<'a> {
    type V = StatefulSetView;

    open spec fn view(&self) -> StatefulSetView {
        StatefulSetView { statefulset: *self.statefulset, replicasets: self.replicasets@ }
    }
}

impl<'a> Kept for StatefulSetHierarchy<'a> {
    open spec fn sound(&self) -> bool {
        self.replicasets.sound()
    }
}

impl StatefulSetView {
    /// Whether all that is shown below the root is there.
    pub open spec fn complete(self) -> bool {
        self.statefulset.metadata.name is Some && sets_complete(self.replicasets)
    }

    /// How the statefulset is shown.
    pub open spec fn tree(self) -> TreeView {
        node("statefulset "@ + self.statefulset.metadata.name->0@).with_all(
            set_trees(self.replicasets),
        )
    }
}

impl<'a> StatefulSetHierarchy<'a> {
    /// Whether all that is shown below the root is there.
    pub fn is_complete(&self) -> (r: bool)
        requires
            self.sound(),
        ensures
            r == self@.complete(),
    {
        self.statefulset.metadata.name.is_some() && check_sets(&self.replicasets)
    }

    /// Shows the statefulset below `root`.
    pub fn add_to_tree(&self, root: &mut TraceTree)
        requires
            self.sound(),
            self@.complete(),
        ensures
            final(root)@ == old(root)@.with(self@.tree()),
    {
        let mut text = "statefulset ".to_owned();
        text.append(self.statefulset.metadata.name.as_ref().unwrap().as_str());
        let mut tree = TraceNode::node(text);
        add_sets(&self.replicasets, &mut tree);
        root.push(tree);
    }
}

/// A daemon set and its pods.
pub struct DaemonSetHierarchy<'a> {
    pub daemonset: &'a DaemonSet,
    pub pods: Keyed<PodHierarchy<'a>>,
}

/// What a [`DaemonSetHierarchy`] holds.
pub struct DaemonSetView {
    pub daemonset: DaemonSet,
    pub pods: Seq<(Seq<char>, PodView)>,
}

impl<'a> View for DaemonSetHierarchy<'a> {
    type V = DaemonSetView;

    open spec fn view(&self) -> DaemonSetView {
        DaemonSetView { daemonset: *self.daemonset, pods: self.pods@ }
    }
}

impl<'a> Kept for DaemonSetHierarchy<'a> {
    open spec fn sound(&self) -> bool {
        self.pods.sound()
    }
}

impl DaemonSetView {
    /// Whether all that is shown below the root is there.
    pub open spec fn complete(self) -> bool {
        self.daemonset.metadata.name is Some && pods_complete(self.pods)
    }

    /// How the daemonset is shown.
    pub open spec fn tree(self) -> TreeView {
        node("daemonset "@ + self.daemonset.metadata.name->0@).with_all(pod_trees(self.pods))
    }
}

impl<'a> DaemonSetHierarchy<'a> {
    /// Whether all that is shown below the root is there.
    pub fn is_complete(&self) -> (r: bool)
        requires
            self.sound(),
        ensures
            r == self@.complete(),
    {
        self.daemonset.metadata.name.is_some() && check_pods(&self.pods)
    }

    /// Shows the daemonset below `root`.
    pub fn add_to_tree(&self, root: &mut TraceTree)
        requires
            self.sound(),
            self@.complete(),
        ensures
            final(root)@ == old(root)@.with(self@.tree()),
    {
        let mut text = "daemonset ".to_owned();
        text.append(self.daemonset.metadata.name.as_ref().unwrap().as_str());
        let mut tree = TraceNode::node(text);
        add_pods(&self.pods, &mut tree);
        root.push(tree);
    }
}

/// The workloads behind a service, by the name of their outermost owner.
pub struct ServiceChildren<'a> {
    pub deploy: Keyed<DeploymentHierarchy<'a>>,
    pub sts: Keyed<StatefulSetHierarchy<'a>>,
    pub ds: Keyed<DaemonSetHierarchy<'a>>,
}

/// What [`ServiceChildren`] hold.
pub struct ChildrenView {
    pub deploy: Seq<(Seq<char>, DeploymentView)>,
    pub sts: Seq<(Seq<char>, StatefulSetView)>,
    pub ds: Seq<(Seq<char>, DaemonSetView)>,
}

impl<'a> View for ServiceChildren<'a> {
    type V = ChildrenView;

    open spec fn view(&self) -> ChildrenView {
        ChildrenView { deploy: self.deploy@, sts: self.sts@, ds: self.ds@ }
    }
}

/// No workloads.
pub open spec fn no_children() -> ChildrenView {
    ChildrenView { deploy: Seq::empty(), sts: Seq::empty(), ds: Seq::empty() }
}

impl ChildrenView {
    /// The children with `endpoint` listed in a pod of a replica set of the deployment of that
    /// name. What is known by its name already stays as it was first seen.
    pub open spec fn in_deployment(
        self,
        name: Seq<char>,
        deployment: Deployment,
        set_name: Seq<char>,
        rs: ReplicaSet,
        pod_name: Seq<char>,
        pod: Pod,
        endpoint: Endpoint,
    ) -> ChildrenView {
        let known = found(
            self.deploy,
            name,
            DeploymentView { deployment, replicasets: Seq::empty() },
        );
        ChildrenView {
            deploy: put(
                self.deploy,
                name,
                DeploymentView {
                    deployment: known.deployment,
                    replicasets: sets_with(
                        known.replicasets,
                        set_name,
                        rs,
                        pod_name,
                        pod,
                        endpoint,
                    ),
                },
            ),
            ..self
        }
    }

    /// The children with `endpoint` listed in a pod of a replica set of the stateful set of that
    /// name. What is known by its name already stays as it was first seen.
    pub open spec fn in_statefulset(
        self,
        name: Seq<char>,
        statefulset: StatefulSet,
        set_name: Seq<char>,
        rs: ReplicaSet,
        pod_name: Seq<char>,
        pod: Pod,
        endpoint: Endpoint,
    ) -> ChildrenView {
        let known = found(
            self.sts,
            name,
            StatefulSetView { statefulset, replicasets: Seq::empty() },
        );
        ChildrenView {
            sts: put(
                self.sts,
                name,
                StatefulSetView {
                    statefulset: known.statefulset,
                    replicasets: sets_with(
                        known.replicasets,
                        set_name,
                        rs,
                        pod_name,
                        pod,
                        endpoint,
                    ),
                },
            ),
            ..self
        }
    }

    /// The children with `endpoint` listed in a pod of the daemon set of that name. What is
    /// known by its name already stays as it was first seen.
    pub open spec fn in_daemonset(
        self,
        name: Seq<char>,
        daemonset: DaemonSet,
        pod_name: Seq<char>,
        pod: Pod,
        endpoint: Endpoint,
    ) -> ChildrenView {
        let known = found(self.ds, name, DaemonSetView { daemonset, pods: Seq::empty() });
        ChildrenView {
            ds: put(
                self.ds,
                name,
                DaemonSetView {
                    daemonset: known.daemonset,
                    pods: pods_with(known.pods, pod_name, pod, endpoint),
                },
            ),
            ..self
        }
    }

    /// Whether all that is shown is there.
    pub open spec fn complete(self) -> bool {
        &&& forall|i: int| 0 <= i < self.deploy.len() ==> (#[trigger] self.deploy[i]).1.complete()
        &&& forall|i: int| 0 <= i < self.sts.len() ==> (#[trigger] self.sts[i]).1.complete()
        &&& forall|i: int| 0 <= i < self.ds.len() ==> (#[trigger] self.ds[i]).1.complete()
    }

    /// The deployments, as they are shown.
    pub open spec fn deploy_trees(self) -> Seq<TreeView> {
        Seq::new(self.deploy.len(), |i: int| self.deploy[i].1.tree())
    }

    /// The stateful sets, as they are shown.
    pub open spec fn sts_trees(self) -> Seq<TreeView> {
        Seq::new(self.sts.len(), |i: int| self.sts[i].1.tree())
    }

    /// The daemon sets, as they are shown.
    pub open spec fn ds_trees(self) -> Seq<TreeView> {
        Seq::new(self.ds.len(), |i: int| self.ds[i].1.tree())
    }

    /// How the children are shown: deployments, then stateful sets, then daemon sets.
    pub open spec fn trees(self) -> Seq<TreeView> {
        self.deploy_trees() + self.sts_trees() + self.ds_trees()
    }
}

impl<'a> ServiceChildren<'a> {
    /// Every part is in order.
    pub open spec fn sound(self) -> bool {
        self.deploy.sound() && self.sts.sound() && self.ds.sound()
    }

    /// No workloads.
    pub fn new() -> (children: ServiceChildren<'a>)
        ensures
            children.sound(),
            children@ == no_children(),
    {
        ServiceChildren { deploy: Keyed::new(), sts: Keyed::new(), ds: Keyed::new() }
    }

    /// Lists `endpoint` in a pod of a replica set of the deployment of that name.
    pub fn place_in_deployment(
        &mut self,
        name: &String,
        deployment: &'a Deployment,
        set_name: &String,
        rs: &'a ReplicaSet,
        pod_name: &String,
        pod: &'a Pod,
        endpoint: &Endpoint,
    )
        requires
            old(self).sound(),
        ensures
            final(self).sound(),
            final(self)@ == old(self)@.in_deployment(
                name@,
                *deployment,
                set_name@,
                *rs,
                pod_name@,
                *pod,
                *endpoint,
            ),
    {
        let slot = self.deploy.entry_or(
            name.clone(),
            DeploymentHierarchy { deployment, replicasets: Keyed::new() },
        );
        place_in_set(&mut slot.replicasets, set_name, rs, pod_name, pod, endpoint);
    }

    /// Lists `endpoint` in a pod of a replica set of the stateful set of that name.
    pub fn place_in_statefulset(
        &mut self,
        name: &String,
        statefulset: &'a StatefulSet,
        set_name: &String,
        rs: &'a ReplicaSet,
        pod_name: &String,
        pod: &'a Pod,
        endpoint: &Endpoint,
    )
        requires
            old(self).sound(),
        ensures
            final(self).sound(),
            final(self)@ == old(self)@.in_statefulset(
                name@,
                *statefulset,
                set_name@,
                *rs,
                pod_name@,
                *pod,
                *endpoint,
            ),
    {
        let slot = self.sts.entry_or(
            name.clone(),
            StatefulSetHierarchy { statefulset, replicasets: Keyed::new() },
        );
        place_in_set(&mut slot.replicasets, set_name, rs, pod_name, pod, endpoint);
    }

    /// Lists `endpoint` in a pod of the daemon set of that name.
    pub fn place_in_daemonset(
        &mut self,
        name: &String,
        daemonset: &'a DaemonSet,
        pod_name: &String,
        pod: &'a Pod,
        endpoint: &Endpoint,
    )
        requires
            old(self).sound(),
        ensures
            final(self).sound(),
            final(self)@ == old(self)@.in_daemonset(name@, *daemonset, pod_name@, *pod, *endpoint),
    {
        let slot = self.ds.entry_or(
            name.clone(),
            DaemonSetHierarchy { daemonset, pods: Keyed::new() },
        );
        place_pod(&mut slot.pods, pod_name, pod, endpoint);
    }

    /// Whether all that is shown is there.
    pub fn is_complete(&self) -> (r: bool)
        requires
            self.sound(),
        ensures
            r == self@.complete(),
    {
        let items = self.deploy.in_order();
        let mut i: usize = 0;
        while i < items.len()
            invariant
                i <= items@.len(),
                items@.len() == self.deploy@.len(),
                forall|j: int|
                    0 <= j < items@.len() ==> (#[trigger] items@[j])@ == self.deploy@[j].1
                        && items@[j].sound(),
                forall|j: int| 0 <= j < i ==> (#[trigger] self.deploy@[j]).1.complete(),
            decreases items.len() - i,
        {
            if !items[i].is_complete() {
                assert(!self@.deploy[i as int].1.complete());
                return false;
            }
            i += 1;
        }
        let items = self.sts.in_order();
        let mut i: usize = 0;
        while i < items.len()
            invariant
                i <= items@.len(),
                items@.len() == self.sts@.len(),
                forall|j: int|
                    0 <= j < items@.len() ==> (#[trigger] items@[j])@ == self.sts@[j].1
                        && items@[j].sound(),
                forall|j: int| 0 <= j < i ==> (#[trigger] self.sts@[j]).1.complete(),
            decreases items.len() - i,
        {
            if !items[i].is_complete() {
                assert(!self@.sts[i as int].1.complete());
                return false;
            }
            i += 1;
        }
        let items = self.ds.in_order();
        let mut i: usize = 0;
        while i < items.len()
            invariant
                i <= items@.len(),
                items@.len() == self.ds@.len(),
                forall|j: int|
                    0 <= j < items@.len() ==> (#[trigger] items@[j])@ == self.ds@[j].1
                        && items@[j].sound(),
                forall|j: int| 0 <= j < i ==> (#[trigger] self.ds@[j]).1.complete(),
            decreases items.len() - i,
        {
            if !items[i].is_complete() {
                assert(!self@.ds[i as int].1.complete());
                return false;
            }
            i += 1;
        }
        true
    }

    /// Shows the children below `root`.
    pub fn add_to_tree(&self, root: &mut TraceTree)
        requires
            self.sound(),
            self@.complete(),
        ensures
            final(root)@ == old(root)@.with_all(self@.trees()),
    {
        let ghost before_deploy = root@;
        let items = self.deploy.in_order();
        let mut i: usize = 0;
        assert(root@.leaves =~= before_deploy.with_all(self@.deploy_trees().take(0)).leaves);
        while i < items.len()
            invariant
                i <= items@.len(),
                items@.len() == self.deploy@.len(),
                self@.complete(),
                forall|j: int|
                    0 <= j < items@.len() ==> (#[trigger] items@[j])@ == self.deploy@[j].1
                        && items@[j].sound(),
                root@ == before_deploy.with_all(self@.deploy_trees().take(i as int)),
            decreases items.len() - i,
        {
            assert(self@.deploy[i as int].1.complete());
            items[i].add_to_tree(root);
            i += 1;
            assert(root@.leaves =~= before_deploy.with_all(
                self@.deploy_trees().take(i as int),
            ).leaves);
        }
        assert(self@.deploy_trees().take(i as int) =~= self@.deploy_trees());
        let ghost before_sts = root@;
        let items = self.sts.in_order();
        let mut i: usize = 0;
        assert(root@.leaves =~= before_sts.with_all(self@.sts_trees().take(0)).leaves);
        while i < items.len()
            invariant
                i <= items@.len(),
                items@.len() == self.sts@.len(),
                self@.complete(),
                forall|j: int|
                    0 <= j < items@.len() ==> (#[trigger] items@[j])@ == self.sts@[j].1
                        && items@[j].sound(),
                root@ == before_sts.with_all(self@.sts_trees().take(i as int)),
            decreases items.len() - i,
        {
            assert(self@.sts[i as int].1.complete());
            items[i].add_to_tree(root);
            i += 1;
            assert(root@.leaves =~= before_sts.with_all(self@.sts_trees().take(i as int)).leaves);
        }
        assert(self@.sts_trees().take(i as int) =~= self@.sts_trees());
        let ghost before_ds = root@;
        let items = self.ds.in_order();
        let mut i: usize = 0;
        assert(root@.leaves =~= before_ds.with_all(self@.ds_trees().take(0)).leaves);
        while i < items.len()
            invariant
                i <= items@.len(),
                items@.len() == self.ds@.len(),
                self@.complete(),
                forall|j: int|
                    0 <= j < items@.len() ==> (#[trigger] items@[j])@ == self.ds@[j].1
                        && items@[j].sound(),
                root@ == before_ds.with_all(self@.ds_trees().take(i as int)),
            decreases items.len() - i,
        {
            assert(self@.ds[i as int].1.complete());
            items[i].add_to_tree(root);
            i += 1;
            assert(root@.leaves =~= before_ds.with_all(self@.ds_trees().take(i as int)).leaves);
        }
        assert(self@.ds_trees().take(i as int) =~= self@.ds_trees());
        assert(root@.leaves =~= old(root)@.leaves + self@.trees());
    }
}

/// The names listed as ready are those of the containers whose own status is ready, in order, and
/// the names listed as pending are those of the others.
pub proof fn law_containers_are_listed_by_their_own_status(
    statuses: Seq<ContainerStatus>,
    ready: bool,
)
    ensures
        container_names(statuses, ready) == statuses.filter(
            |status: ContainerStatus| status.ready == ready,
        ).map_values(|status: ContainerStatus| status.name@),
    decreases statuses.len(),
{
    reveal(Seq::filter);
    let own = |status: ContainerStatus| status.ready == ready;
    let name = |status: ContainerStatus| status.name@;
    if statuses.len() > 0 {
        law_containers_are_listed_by_their_own_status(statuses.drop_last(), ready);
    }
    assert(container_names(statuses, ready) =~= statuses.filter(own).map_values(name));
}

/// A pod stands under its name and the number of its containers, of which so many are ready.
/// Below it the ready ones and the pending ones are listed, each where there are any, and then
/// every address, in order.
pub proof fn law_pod_shows_containers_and_addresses(view: PodView)
    requires
        view.complete(),
    ensures
        ({
            let statuses = view.pod.status->0.container_statuses->0@;
            let ready = statuses.filter(|status: ContainerStatus| status.ready);
            let pending = statuses.filter(|status: ContainerStatus| !status.ready);
            let names = |status: ContainerStatus| status.name@;
            let leaves = view.tree().leaves;
            let addrs = view.addrs;
            &&& ready.len() + pending.len() == statuses.len()
            &&& view.tree().root == NodeView::Node(
                "pod "@ + view.pod.metadata.name->0@ + " ("@ + decimal(ready.len()) + "/"@
                    + decimal(statuses.len()) + " containers ready)"@,
            )
            &&& leaves.len() == addrs.len() + (if ready.len() > 0 {
                1int
            } else {
                0
            }) + (if pending.len() > 0 {
                1int
            } else {
                0
            })
            &&& ready.len() > 0 ==> leaves[0] == label(
                "ready containers"@,
                join(ready.map_values(names), ", "@),
            )
            &&& pending.len() > 0 ==> leaves[if ready.len() > 0 {
                1int
            } else {
                0
            }] == label("pending containers"@, join(pending.map_values(names), ", "@))
            &&& forall|i: int|
                0 <= i < addrs.len() ==> leaves[leaves.len() - addrs.len() + i] == label(
                    "endpoint"@,
                    (#[trigger] addrs[i]).1,
                )
        }),
{
    let statuses = view.pod.status->0.container_statuses->0@;
    let is_ready = |status: ContainerStatus| status.ready;
    let is_pending = |status: ContainerStatus| !status.ready;
    let names = |status: ContainerStatus| status.name@;
    law_containers_are_listed_by_their_own_status(statuses, true);
    law_containers_are_listed_by_their_own_status(statuses, false);
    law_containers_split(statuses);
    assert(is_ready =~= (|status: ContainerStatus| status.ready == true));
    assert(is_pending =~= (|status: ContainerStatus| status.ready == false));
    assert(statuses.filter(is_ready).map_values(names) == container_names(statuses, true));
    assert(statuses.filter(is_pending).map_values(names) == container_names(statuses, false));
    let ready = name_list("ready containers"@, container_names(statuses, true));
    let pending = name_list("pending containers"@, container_names(statuses, false));
    assert(view.tree().leaves =~= ready + pending + address_labels(view.addrs));
}

/// A replica set stands under its name, with the number of replicas that are available, of which
/// it has none where it does not say, and the number that it has. Below it stands every pod, in
/// order.
pub proof fn law_replica_set_shows_every_pod(view: ReplicaSetView)
    requires
        view.complete(),
    ensures
        ({
            let status = view.rs.status->0;
            let available = if status.available_replicas is Some {
                status.available_replicas->0 as int
            } else {
                0
            };
            &&& view.tree().root == NodeView::Node(
                "replicaset "@ + view.rs.metadata.name->0@ + " ("@ + signed_decimal(available)
                    + "/"@ + signed_decimal(status.replicas as int) + " replicas available)"@,
            )
            &&& view.tree().leaves.len() == view.pods.len()
            &&& forall|i: int|
                0 <= i < view.pods.len() ==> view.tree().leaves[i] == (
                #[trigger] view.pods[i]).1.tree()
        }),
{
}

/// Deployments, stateful sets and daemon sets stand under their kind and name, and below them
/// stands each of their replica sets or pods, in order.
pub proof fn law_workloads_show_all_below_them(
    deployment: DeploymentView,
    statefulset: StatefulSetView,
    daemonset: DaemonSetView,
)
    ensures
        deployment.tree().root == NodeView::Node(
            "deployment "@ + deployment.deployment.metadata.name->0@,
        ),
        deployment.tree().leaves.len() == deployment.replicasets.len(),
        forall|i: int|
            0 <= i < deployment.replicasets.len() ==> deployment.tree().leaves[i] == (
            #[trigger] deployment.replicasets[i]).1.tree(),
        statefulset.tree().root == NodeView::Node(
            "statefulset "@ + statefulset.statefulset.metadata.name->0@,
        ),
        statefulset.tree().leaves.len() == statefulset.replicasets.len(),
        forall|i: int|
            0 <= i < statefulset.replicasets.len() ==> statefulset.tree().leaves[i] == (
            #[trigger] statefulset.replicasets[i]).1.tree(),
        daemonset.tree().root == NodeView::Node(
            "daemonset "@ + daemonset.daemonset.metadata.name->0@,
        ),
        daemonset.tree().leaves.len() == daemonset.pods.len(),
        forall|i: int|
            0 <= i < daemonset.pods.len() ==> daemonset.tree().leaves[i] == (
            #[trigger] daemonset.pods[i]).1.tree(),
{
}

/// All deployments are shown, then all stateful sets, then all daemon sets, each in order.
pub proof fn law_every_workload_is_shown(children: ChildrenView)
    ensures
        children.trees().len() == children.deploy.len() + children.sts.len() + children.ds.len(),
        forall|i: int|
            0 <= i < children.deploy.len() ==> children.trees()[i] == (
            #[trigger] children.deploy[i]).1.tree(),
        forall|i: int|
            0 <= i < children.sts.len() ==> children.trees()[children.deploy.len() + i] == (
            #[trigger] children.sts[i]).1.tree(),
        forall|i: int|
            0 <= i < children.ds.len() ==> children.trees()[children.deploy.len()
                + children.sts.len() + i] == (#[trigger] children.ds[i]).1.tree(),
{
}

/// A pod can be shown exactly where it has a name and says how its containers are doing.
pub open spec fn pod_says_enough(pod: Pod) -> bool {
    pod.metadata.name is Some && pod.status is Some && pod.status->0.container_statuses is Some
}

/// A replica set can be shown exactly where it has a name and a status.
pub open spec fn set_says_enough(rs: ReplicaSet) -> bool {
    rs.metadata.name is Some && rs.status is Some
}

/// Children can be shown exactly where every object among them says enough.
pub proof fn law_children_need_what_is_shown(children: ChildrenView)
    ensures
        children.complete() <==> {
            &&& forall|i: int|
                0 <= i < children.deploy.len() ==> {
                    let owner = (#[trigger] children.deploy[i]).1;
                    &&& owner.deployment.metadata.name is Some
                    &&& forall|j: int, k: int|
                        #![trigger owner.replicasets[j].1.pods[k]]
                        0 <= j < owner.replicasets.len() && 0 <= k
                            < owner.replicasets[j].1.pods.len() ==> pod_says_enough(
                            owner.replicasets[j].1.pods[k].1.pod,
                        )
                    &&& forall|j: int|
                        0 <= j < owner.replicasets.len() ==> set_says_enough(
                            (#[trigger] owner.replicasets[j]).1.rs,
                        )
                }
            &&& forall|i: int|
                0 <= i < children.sts.len() ==> {
                    let owner = (#[trigger] children.sts[i]).1;
                    &&& owner.statefulset.metadata.name is Some
                    &&& forall|j: int, k: int|
                        #![trigger owner.replicasets[j].1.pods[k]]
                        0 <= j < owner.replicasets.len() && 0 <= k
                            < owner.replicasets[j].1.pods.len() ==> pod_says_enough(
                            owner.replicasets[j].1.pods[k].1.pod,
                        )
                    &&& forall|j: int|
                        0 <= j < owner.replicasets.len() ==> set_says_enough(
                            (#[trigger] owner.replicasets[j]).1.rs,
                        )
                }
            &&& forall|i: int|
                0 <= i < children.ds.len() ==> {
                    let owner = (#[trigger] children.ds[i]).1;
                    &&& owner.daemonset.metadata.name is Some
                    &&& forall|k: int|
                        0 <= k < owner.pods.len() ==> pod_says_enough(
                            (#[trigger] owner.pods[k]).1.pod,
                        )
                }
        },
{
}

} // verus!
