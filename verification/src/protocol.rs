//! The parts of a trace that all protocols have in common.
use crate::children::{no_children, ChildrenView, ServiceChildren};
use crate::cluster::{Endpoint, ObjectMeta, OwnerReference};
use crate::ctx::{
    abort, ask_daemonset, ask_deployment, ask_endpoints, ask_pod, ask_replicaset, ask_service,
    ask_statefulset, Abort, AbortView, Reply, Run, Stop, TraceCtx,
};
use crate::endpoints::{get_label, lookup};
use crate::policy::{Backend, BackendKind, Balancer, Discovery, Metadata, MetadataKind};
use crate::text::{append_decimal, decimal, same};
use crate::tree::{label, node, views, NodeView, TraceNode, TraceTree, TreeView};
use vstd::prelude::*;
use vstd::string::*;

pub mod http;
pub mod opaque;

verus! {

/// What came of a part of a trace that makes one tree.
pub open spec fn ended(result: Result<TraceTree, Stop>, at: usize) -> Run<TreeView> {
    match result {
        Ok(tree) => Run::Done(tree@, at as int),
        Err(stop) => Run::Stop(stop@),
    }
}

/// What came of a part of a trace that makes several trees.
pub open spec fn ended_all(result: Result<Vec<TraceTree>, Stop>, at: usize) -> Run<
    Seq<TreeView>,
> {
    match result {
        Ok(trees) => Run::Done(views(trees@), at as int),
        Err(stop) => Run::Stop(stop@),
    }
}

/// `leaves` below a heading.
pub open spec fn headed(heading: Seq<char>, leaves: Run<Seq<TreeView>>) -> Run<TreeView> {
    match leaves {
        Run::Stop(stop) => Run::Stop(stop),
        Run::Done(leaves, at) => Run::Done(
            TreeView { root: NodeView::Node(heading), leaves },
            at,
        ),
    }
}

/// `leaves` below a heading.
pub fn under(heading: &str, leaves: Vec<TraceTree>) -> (tree: TraceTree)
    ensures
        tree@ == (TreeView { root: NodeView::Node(heading@), leaves: views(leaves@) }),
{
    TraceNode::node(heading.to_owned()).with_leaves(leaves)
}

/// The heading of a route: where it came from, and its protocol.
pub open spec fn route_heading(kind: MetadataKind, protocol: Seq<char>) -> Seq<char> {
    match kind {
        MetadataKind::Default(name) => "<default "@ + protocol + " route \""@ + name@ + "\">"@,
        MetadataKind::Resource(r) => r.group@ + "."@ + r.kind@ + "/"@ + r.name@ + " ("@ + protocol
            + ")"@,
    }
}

/// The node for a route.
pub fn node_from_meta(meta: &Metadata, protocol: &str) -> (tree: TraceTree)
    requires
        meta.kind is Some,
    ensures
        tree@ == node(route_heading(meta.kind->0, protocol@)),
{
    match meta.kind.as_ref().unwrap() {
        MetadataKind::Default(name) => {
            let mut text = "<default ".to_owned();
            text.append(protocol);
            text.append(" route \"");
            text.append(name.as_str());
            text.append("\">");
            TraceNode::node(text)
        },
        MetadataKind::Resource(r) => {
            let mut text = r.group.clone();
            text.append(".");
            text.append(r.kind.as_str());
            text.append("/");
            text.append(r.name.as_str());
            text.append(" (");
            text.append(protocol);
            text.append(")");
            TraceNode::node(text)
        },
    }
}

/// Why the owner of an object cannot be told, where it cannot: it has none, or several.
pub open spec fn owner_gap(meta: ObjectMeta) -> Option<AbortView> {
    match meta.owner_references {
        None => Some(AbortView::Unsupported),
        Some(owners) => if owners@.len() == 0 {
            Some(AbortView::Unsupported)
        } else if owners@.len() != 1 {
            Some(AbortView::SeveralOwners)
        } else {
            None
        },
    }
}

/// Why the owner of an object cannot be told, where it cannot.
pub fn check_owner(meta: &ObjectMeta) -> (r: Result<(), Abort>)
    ensures
        owner_gap(*meta) == (match r {
            Ok(()) => None,
            Err(why) => Some(why@),
        }),
{
    match &meta.owner_references {
        None => Err(Abort::Unsupported),
        Some(owners) => if owners.len() == 0 {
            Err(Abort::Unsupported)
        } else if owners.len() != 1 {
            Err(Abort::SeveralOwners)
        } else {
            Ok(())
        },
    }
}

/// The one owner of an object.
pub fn get_owner_reference(meta: &ObjectMeta) -> (owner: &OwnerReference)
    requires
        owner_gap(*meta) is None,
    ensures
        *owner == meta.owner_references->0@[0],
{
    &meta.owner_references.as_ref().unwrap()[0]
}

/// The node for what a backend came from. A service is looked up, for its address.
pub open spec fn metadata_run(meta: Metadata, log: Seq<Reply>, at: int) -> Run<TreeView> {
    match meta.kind {
        None => abort(AbortView::Missing),
        Some(MetadataKind::Default(_)) => abort(AbortView::Unsupported),
        Some(MetadataKind::Resource(r)) => if r.group@ == "core"@ && r.kind@ == "Service"@ {
            match ask_service(log, at, r.namespace@, r.name@) {
                Run::Stop(stop) => Run::Stop(stop),
                Run::Done(service, at) => match service.spec {
                    None => abort(AbortView::Missing),
                    Some(spec) => match spec.cluster_ip {
                        None => abort(AbortView::Unsupported),
                        Some(cluster_ip) => Run::Done(
                            node(
                                "svc "@ + r.name@ + "."@ + r.namespace@ + ":"@ + decimal(
                                    r.port as nat,
                                ),
                            ).with(
                                label(
                                    "endpoint"@,
                                    cluster_ip@ + ":"@ + decimal(r.port as nat),
                                ),
                            ),
                            at,
                        ),
                    },
                },
            }
        } else {
            Run::Done(
                node(
                    r.group@ + "."@ + r.kind@ + "/"@ + r.name@ + ":"@ + decimal(r.port as nat)
                        + " -n "@ + r.namespace@ + " ("@ + r.section@ + ")"@,
                ),
                at,
            )
        },
    }
}

/// The node for what a backend came from.
pub fn metadata_node(ctx: &mut TraceCtx<'_>, meta: &Metadata) -> (result: Result<TraceTree, Stop>)
    ensures
        final(ctx).replies == old(ctx).replies,
        metadata_run(*meta, old(ctx).replies@, old(ctx).at as int) == ended(result, final(ctx).at),
{
    match &meta.kind {
        None => Err(Stop::Abort(Abort::Missing)),
        Some(MetadataKind::Default(_)) => Err(Stop::Abort(Abort::Unsupported)),
        Some(MetadataKind::Resource(r)) => {
            if same(&r.group, "core") && same(&r.kind, "Service") {
                let service = match ctx.service(&r.namespace, &r.name) {
                    Ok(service) => service,
                    Err(stop) => return Err(stop),
                };
                let mut text = "svc ".to_owned();
                text.append(r.name.as_str());
                text.append(".");
                text.append(r.namespace.as_str());
                text.append(":");
                append_decimal(&mut text, r.port as u64);
                let mut tree = TraceNode::node(text);
                match &service.spec {
                    None => Err(Stop::Abort(Abort::Missing)),
                    Some(spec) => match &spec.cluster_ip {
                        None => Err(Stop::Abort(Abort::Unsupported)),
                        Some(cluster_ip) => {
                            let mut address = cluster_ip.clone();
                            address.append(":");
                            append_decimal(&mut address, r.port as u64);
                            tree.push(TraceNode::label("endpoint".to_owned(), address));
                            Ok(tree)
                        },
                    },
                }
            } else {
                let mut text = r.group.clone();
                text.append(".");
                text.append(r.kind.as_str());
                text.append("/");
                text.append(r.name.as_str());
                text.append(":");
                append_decimal(&mut text, r.port as u64);
                text.append(" -n ");
                text.append(r.namespace.as_str());
                text.append(" (");
                text.append(r.section.as_str());
                text.append(")");
                Ok(TraceNode::node(text))
            }
        },
    }
}

/// `children` with `endpoint` placed. Its labels name its pod, the pod's owner is looked up, and
/// that of a replica set too.
pub open spec fn endpoint_run(
    children: ChildrenView,
    endpoint: Endpoint,
    log: Seq<Reply>,
    at: int,
) -> Run<ChildrenView> {
    let ns = lookup(endpoint.metric_labels@, "namespace"@);
    let name = lookup(endpoint.metric_labels@, "pod"@);
    if ns is None || name is None {
        abort(AbortView::Unsupported)
    } else {
        match ask_pod(log, at, ns->0, name->0) {
            Run::Stop(stop) => Run::Stop(stop),
            Run::Done(pod, at) => match owner_gap(pod.metadata) {
                Some(why) => abort(why),
                None => {
                    let owner = pod.metadata.owner_references->0@[0];
                    if owner.kind@ == "ReplicaSet"@ {
                        match ask_replicaset(log, at, ns->0, owner.name@) {
                            Run::Stop(stop) => Run::Stop(stop),
                            Run::Done(rs, at) => match owner_gap(rs.metadata) {
                                Some(why) => abort(why),
                                None => {
                                    let above = rs.metadata.owner_references->0@[0];
                                    if above.kind@ == "Deployment"@ {
                                        match ask_deployment(log, at, ns->0, above.name@) {
                                            Run::Stop(stop) => Run::Stop(stop),
                                            Run::Done(deployment, at) => Run::Done(
                                                children.in_deployment(
                                                    above.name@,
                                                    deployment,
                                                    owner.name@,
                                                    rs,
                                                    name->0,
                                                    pod,
                                                    endpoint,
                                                ),
                                                at,
                                            ),
                                        }
                                    } else if above.kind@ == "StatefulSet"@ {
                                        match ask_statefulset(log, at, ns->0, above.name@) {
                                            Run::Stop(stop) => Run::Stop(stop),
                                            Run::Done(statefulset, at) => Run::Done(
                                                children.in_statefulset(
                                                    above.name@,
                                                    statefulset,
                                                    owner.name@,
                                                    rs,
                                                    name->0,
                                                    pod,
                                                    endpoint,
                                                ),
                                                at,
                                            ),
                                        }
                                    } else {
                                        abort(AbortView::UnsupportedOwner(above.kind@))
                                    }
                                },
                            },
                        }
                    } else if owner.kind@ == "DaemonSet"@ {
                        match ask_daemonset(log, at, ns->0, owner.name@) {
                            Run::Stop(stop) => Run::Stop(stop),
                            Run::Done(daemonset, at) => Run::Done(
                                children.in_daemonset(
                                    owner.name@,
                                    daemonset,
                                    name->0,
                                    pod,
                                    endpoint,
                                ),
                                at,
                            ),
                        }
                    } else {
                        abort(AbortView::UnsupportedOwner(owner.kind@))
                    }
                },
            },
        }
    }
}

/// The children that hold `endpoints`, placed in order.
pub open spec fn endpoints_run(endpoints: Seq<Endpoint>, log: Seq<Reply>, at: int) -> Run<
    ChildrenView,
>
    decreases endpoints.len(),
{
    if endpoints.len() == 0 {
        Run::Done(no_children(), at)
    } else {
        match endpoints_run(endpoints.drop_last(), log, at) {
            Run::Stop(stop) => Run::Stop(stop),
            Run::Done(children, at) => endpoint_run(children, endpoints.last(), log, at),
        }
    }
}

proof fn lemma_endpoints_stop(endpoints: Seq<Endpoint>, n: int, log: Seq<Reply>, at: int)
    requires
        0 <= n <= endpoints.len(),
        endpoints_run(endpoints.take(n), log, at) is Stop,
    ensures
        endpoints_run(endpoints, log, at) == endpoints_run(endpoints.take(n), log, at),
    decreases endpoints.len(),
{
    if n < endpoints.len() {
        assert(endpoints.drop_last().take(n) =~= endpoints.take(n));
        lemma_endpoints_stop(endpoints.drop_last(), n, log, at);
    } else {
        assert(endpoints.take(n) =~= endpoints);
    }
}

/// The children of the service at a path of the destination service.
pub open spec fn children_run(path: Seq<char>, log: Seq<Reply>, at: int) -> Run<ChildrenView> {
    match ask_endpoints(log, at, path) {
        Run::Stop(stop) => Run::Stop(stop),
        Run::Done(endpoints, at) => endpoints_run(endpoints, log, at),
    }
}

/// Places `endpoint` among `children`.
fn place_endpoint<'a>(
    ctx: &mut TraceCtx<'a>,
    children: &mut ServiceChildren<'a>,
    endpoint: &Endpoint,
) -> (result: Result<(), Stop>)
    requires
        old(children).sound(),
    ensures
        final(ctx).replies == old(ctx).replies,
        final(children).sound(),
        endpoint_run(old(children)@, *endpoint, old(ctx).replies@, old(ctx).at as int) == (
        match result {
            Ok(()) => Run::Done(final(children)@, final(ctx).at as int),
            Err(stop) => Run::Stop(stop@),
        }),
{
    let ns = match get_label(&endpoint.metric_labels, "namespace") {
        Some(ns) => ns,
        None => return Err(Stop::Abort(Abort::Unsupported)),
    };
    let name = match get_label(&endpoint.metric_labels, "pod") {
        Some(name) => name,
        None => return Err(Stop::Abort(Abort::Unsupported)),
    };
    let pod = match ctx.pod(ns, name) {
        Ok(pod) => pod,
        Err(stop) => return Err(stop),
    };
    if let Err(why) = check_owner(&pod.metadata) {
        return Err(Stop::Abort(why));
    }
    let pod_owner = get_owner_reference(&pod.metadata);
    if same(&pod_owner.kind, "ReplicaSet") {
        let rs = match ctx.replicaset(ns, &pod_owner.name) {
            Ok(rs) => rs,
            Err(stop) => return Err(stop),
        };
        if let Err(why) = check_owner(&rs.metadata) {
            return Err(Stop::Abort(why));
        }
        let rs_owner = get_owner_reference(&rs.metadata);
        if same(&rs_owner.kind, "Deployment") {
            let deployment = match ctx.deployment(ns, &rs_owner.name) {
                Ok(deployment) => deployment,
                Err(stop) => return Err(stop),
            };
            children.place_in_deployment(
                &rs_owner.name,
                deployment,
                &pod_owner.name,
                rs,
                name,
                pod,
                endpoint,
            );
            Ok(())
        } else if same(&rs_owner.kind, "StatefulSet") {
            let statefulset = match ctx.statefulset(ns, &rs_owner.name) {
                Ok(statefulset) => statefulset,
                Err(stop) => return Err(stop),
            };
            children.place_in_statefulset(
                &rs_owner.name,
                statefulset,
                &pod_owner.name,
                rs,
                name,
                pod,
                endpoint,
            );
            Ok(())
        } else {
            Err(Stop::Abort(Abort::UnsupportedOwner(rs_owner.kind.clone())))
        }
    } else if same(&pod_owner.kind, "DaemonSet") {
        let daemonset = match ctx.daemonset(ns, &pod_owner.name) {
            Ok(daemonset) => daemonset,
            Err(stop) => return Err(stop),
        };
        children.place_in_daemonset(&pod_owner.name, daemonset, name, pod, endpoint);
        Ok(())
    } else {
        Err(Stop::Abort(Abort::UnsupportedOwner(pod_owner.kind.clone())))
    }
}

/// The children of the service at a path of the destination service.
pub fn get_service_children<'a>(ctx: &mut TraceCtx<'a>, path: &String) -> (result: Result<
    ServiceChildren<'a>,
    Stop,
>)
    ensures
        final(ctx).replies == old(ctx).replies,
        result is Ok ==> result->Ok_0.sound(),
        children_run(path@, old(ctx).replies@, old(ctx).at as int) == (match result {
            Ok(children) => Run::Done(children@, final(ctx).at as int),
            Err(stop) => Run::Stop(stop@),
        }),
{
    let endpoints = match ctx.endpoints(path) {
        Ok(endpoints) => endpoints,
        Err(stop) => return Err(stop),
    };
    let ghost start = ctx.at as int;
    let ghost log = ctx.replies@;
    let mut children = ServiceChildren::new();
    let mut i: usize = 0;
    assert(endpoints@.take(0) =~= Seq::<Endpoint>::empty());
    while i < endpoints.len()
        invariant
            i <= endpoints.len(),
            ctx.replies == old(ctx).replies,
            log == ctx.replies@,
            children.sound(),
            ask_endpoints(log, old(ctx).at as int, path@) == Run::Done(endpoints@, start),
            endpoints_run(endpoints@.take(i as int), log, start) == Run::Done(
                children@,
                ctx.at as int,
            ),
        decreases endpoints.len() - i,
    {
        assert(endpoints@.take(i + 1).drop_last() =~= endpoints@.take(i as int));
        match place_endpoint(ctx, &mut children, &endpoints[i]) {
            Ok(()) => {},
            Err(stop) => {
                proof {
                    lemma_endpoints_stop(endpoints@, i + 1, log, start);
                }
                return Err(stop);
            },
        }
        i += 1;
    }
    assert(endpoints@.take(i as int) =~= endpoints@);
    Ok(children)
}

/// The path at the destination service at which a balancer discovers endpoints.
pub open spec fn balancer_path(balancer: Balancer) -> Option<Seq<char>> {
    match balancer.discovery {
        None => None,
        Some(discovery) => match discovery.kind {
            None => None,
            Some(Discovery::Dst(path)) => Some(path@),
        },
    }
}

/// The path at the destination service at which a balancer discovers endpoints.
pub fn path_of_balancer(balancer: &Balancer) -> (path: Option<&String>)
    ensures
        balancer_path(*balancer) == (match path {
            Some(path) => Some(path@),
            None => None,
        }),
{
    match &balancer.discovery {
        None => None,
        Some(discovery) => match &discovery.kind {
            None => None,
            Some(Discovery::Dst(path)) => Some(path),
        },
    }
}

/// The node for a backend: what it came from, and the workloads behind it.
pub open spec fn backend_run(backend: Backend, log: Seq<Reply>, at: int) -> Run<TreeView> {
    match backend.metadata {
        None => abort(AbortView::Missing),
        Some(meta) => match metadata_run(meta, log, at) {
            Run::Stop(stop) => Run::Stop(stop),
            Run::Done(tree, at) => match backend.kind {
                None => abort(AbortView::Missing),
                Some(BackendKind::Forward) => abort(AbortView::Unsupported),
                Some(BackendKind::Balancer(balancer)) => match balancer_path(balancer) {
                    None => abort(AbortView::Missing),
                    Some(path) => match children_run(path, log, at) {
                        Run::Stop(stop) => Run::Stop(stop),
                        Run::Done(children, at) => if children.complete() {
                            Run::Done(
                                tree.with(label("FQDN"@, path)).with_all(children.trees()),
                                at,
                            )
                        } else {
                            abort(AbortView::Missing)
                        },
                    },
                },
            },
        },
    }
}

/// The node for a backend.
pub fn create_backend_node(ctx: &mut TraceCtx<'_>, backend: &Backend) -> (result: Result<
    TraceTree,
    Stop,
>)
    ensures
        final(ctx).replies == old(ctx).replies,
        backend_run(*backend, old(ctx).replies@, old(ctx).at as int) == ended(
            result,
            final(ctx).at,
        ),
{
    let meta = match &backend.metadata {
        Some(meta) => meta,
        None => return Err(Stop::Abort(Abort::Missing)),
    };
    let mut tree = match metadata_node(ctx, meta) {
        Ok(tree) => tree,
        Err(stop) => return Err(stop),
    };
    match &backend.kind {
        None => Err(Stop::Abort(Abort::Missing)),
        Some(BackendKind::Forward) => Err(Stop::Abort(Abort::Unsupported)),
        Some(BackendKind::Balancer(balancer)) => {
            let path = match path_of_balancer(balancer) {
                Some(path) => path,
                None => return Err(Stop::Abort(Abort::Missing)),
            };
            let children = match get_service_children(ctx, path) {
                Ok(children) => children,
                Err(stop) => return Err(stop),
            };
            if !children.is_complete() {
                return Err(Stop::Abort(Abort::Missing));
            }
            tree.push(TraceNode::label("FQDN".to_owned(), path.clone()));
            children.add_to_tree(&mut tree);
            Ok(tree)
        },
    }
}

} // verus!
