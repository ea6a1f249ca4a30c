//! The trace of a service.
use crate::cluster::Service;
use crate::ctx::{abort, Abort, AbortView, Reply, Run, Stop, StopView, TraceCtx};
use crate::defaults::{check_default, is_default};
use crate::policy::{
    Detect, Http1, Http2, HttpRoute, Metadata, Opaque, OpaqueRoute, OutboundPolicy, ProtocolKind,
};
use crate::protocol::{ended, ended_all, headed, route_heading, under};
use crate::protocol::http::{create_http1_nodes, create_http2_nodes};
use crate::protocol::opaque::create_opaque_nodes;
use crate::tree::{label, views, NodeView, TraceNode, TraceTree, TreeView};
use vstd::prelude::*;
use vstd::string::*;

verus! {

/// A service and its outbound policy.
pub struct ServiceDescription {
    pub svc: Service,
    pub policy: OutboundPolicy,
}

/// The nodes for opaque routes.
pub open spec fn opaque_run(opaque: Opaque, log: Seq<Reply>, at: int) -> Run<Seq<TreeView>> {
    crate::protocol::opaque::routes_run(opaque.routes@, log, at)
}

/// The nodes for HTTP/1 routes.
pub open spec fn http1_run(http1: Http1, log: Seq<Reply>, at: int) -> Run<Seq<TreeView>> {
    crate::protocol::http::routes_run(http1.routes@, "HTTP/1"@, log, at)
}

/// The nodes for HTTP/2 routes.
pub open spec fn http2_run(http2: Http2, log: Seq<Reply>, at: int) -> Run<Seq<TreeView>> {
    crate::protocol::http::routes_run(http2.routes@, "HTTP/2"@, log, at)
}

/// The nodes for opaque routes, where there are any.
pub open spec fn opaque_part(opaque: Option<Opaque>, log: Seq<Reply>, at: int) -> Run<
    Seq<TreeView>,
> {
    match opaque {
        None => Run::Done(Seq::empty(), at),
        Some(opaque) => opaque_run(opaque, log, at),
    }
}

/// The nodes for HTTP/1 routes, where there are any.
pub open spec fn http1_part(http1: Option<Http1>, log: Seq<Reply>, at: int) -> Run<Seq<TreeView>> {
    match http1 {
        None => Run::Done(Seq::empty(), at),
        Some(http1) => http1_run(http1, log, at),
    }
}

/// The nodes for HTTP/2 routes, where there are any.
pub open spec fn http2_part(http2: Option<Http2>, log: Seq<Reply>, at: int) -> Run<Seq<TreeView>> {
    match http2 {
        None => Run::Done(Seq::empty(), at),
        Some(http2) => http2_run(http2, log, at),
    }
}

/// The nodes for a policy that leaves the protocol to be detected: what is detected, and then
/// the routes of every protocol. The default policy is shown by its HTTP/1 routes, which stand
/// for all.
pub open spec fn detect_run(detect: Detect, log: Seq<Reply>, at: int) -> Run<Seq<TreeView>> {
    if is_default(detect) {
        match http1_run(detect.http1->0, log, at) {
            Run::Stop(stop) => Run::Stop(stop),
            Run::Done(http1, at) => Run::Done(
                seq![label("protocol"@, "detect (opaque, HTTP/1, HTTP/2)"@)] + http1,
                at,
            ),
        }
    } else {
        match opaque_part(detect.opaque, log, at) {
            Run::Stop(stop) => Run::Stop(stop),
            Run::Done(opaque, at) => match http1_part(detect.http1, log, at) {
                Run::Stop(stop) => Run::Stop(stop),
                Run::Done(http1, at) => match http2_part(detect.http2, log, at) {
                    Run::Stop(stop) => Run::Stop(stop),
                    Run::Done(http2, at) => Run::Done(
                        seq![label("protocol"@, "detect"@)] + opaque + http1 + http2,
                        at,
                    ),
                },
            },
        }
    }
}

/// The nodes for a policy.
pub open spec fn protocol_run(kind: ProtocolKind, log: Seq<Reply>, at: int) -> Run<Seq<TreeView>> {
    match kind {
        ProtocolKind::Detect(detect) => detect_run(detect, log, at),
        ProtocolKind::Opaque(opaque) => opaque_run(opaque, log, at),
        ProtocolKind::Http1(http1) => http1_run(http1, log, at),
        ProtocolKind::Http2(http2) => http2_run(http2, log, at),
        ProtocolKind::Grpc => abort(AbortView::Unsupported),
        ProtocolKind::Tls => abort(AbortView::Unsupported),
    }
}

impl ServiceDescription {
    /// The heading of the trace.
    pub open spec fn heading(self) -> Seq<char> {
        "trace for service "@ + self.svc.metadata.name->0@ + "."@ + self.svc.metadata.namespace->0@
    }

    /// The trace of the service on the replies in `log` after the first `at`.
    pub open spec fn trace(self, log: Seq<Reply>, at: int) -> Run<TreeView> {
        if self.svc.metadata.name is None || self.svc.metadata.namespace is None {
            abort(AbortView::Missing)
        } else {
            match self.policy.protocol {
                None => abort(AbortView::Missing),
                Some(protocol) => match protocol.kind {
                    None => abort(AbortView::Missing),
                    Some(kind) => headed(self.heading(), protocol_run(kind, log, at)),
                },
            }
        }
    }

    /// The trace of the service.
    pub fn display(&self, ctx: &mut TraceCtx<'_>) -> (result: Result<TraceTree, Stop>)
        ensures
            final(ctx).replies == old(ctx).replies,
            self.trace(old(ctx).replies@, old(ctx).at as int) == ended(result, final(ctx).at),
    {
        let name = match &self.svc.metadata.name {
            Some(name) => name,
            None => return Err(Stop::Abort(Abort::Missing)),
        };
        let namespace = match &self.svc.metadata.namespace {
            Some(namespace) => namespace,
            None => return Err(Stop::Abort(Abort::Missing)),
        };
        let mut text = "trace for service ".to_owned();
        text.append(name.as_str());
        text.append(".");
        text.append(namespace.as_str());
        let protocol = match &self.policy.protocol {
            Some(protocol) => protocol,
            None => return Err(Stop::Abort(Abort::Missing)),
        };
        let nodes = match &protocol.kind {
            None => return Err(Stop::Abort(Abort::Missing)),
            Some(ProtocolKind::Detect(detect)) => create_detect_nodes(ctx, detect),
            Some(ProtocolKind::Opaque(opaque)) => create_opaque_nodes(ctx, opaque),
            Some(ProtocolKind::Http1(http1)) => create_http1_nodes(ctx, http1),
            Some(ProtocolKind::Http2(http2)) => create_http2_nodes(ctx, http2),
            Some(ProtocolKind::Grpc) => return Err(Stop::Abort(Abort::Unsupported)),
            Some(ProtocolKind::Tls) => return Err(Stop::Abort(Abort::Unsupported)),
        };
        match nodes {
            Ok(nodes) => Ok(under(text.as_str(), nodes)),
            Err(stop) => Err(stop),
        }
    }
}

/// The nodes for a policy that leaves the protocol to be detected.
fn create_detect_nodes(ctx: &mut TraceCtx<'_>, detect: &Detect) -> (result: Result<
    Vec<TraceTree>,
    Stop,
>)
    ensures
        final(ctx).replies == old(ctx).replies,
        detect_run(*detect, old(ctx).replies@, old(ctx).at as int) == ended_all(
            result,
            final(ctx).at,
        ),
{
    let mut nodes: Vec<TraceTree> = Vec::new();
    if check_default(detect) {
        let text = "detect (opaque, HTTP/1, HTTP/2)".to_owned();
        nodes.push(TraceNode::label("protocol".to_owned(), text));
        match create_http1_nodes(ctx, detect.http1.as_ref().unwrap()) {
            Ok(mut http1) => {
                let ghost expected = seq![nodes@[0]@] + views(http1@);
                nodes.append(&mut http1);
                assert(views(nodes@) =~= expected);
            },
            Err(stop) => return Err(stop),
        }
        return Ok(nodes);
    }
    nodes.push(TraceNode::label("protocol".to_owned(), "detect".to_owned()));
    let ghost mut expected = views(nodes@);
    assert(expected =~= seq![label("protocol"@, "detect"@)]);
    if let Some(opaque) = &detect.opaque {
        match create_opaque_nodes(ctx, opaque) {
            Ok(mut more) => {
                proof {
                    expected = expected + views(more@);
                }
                nodes.append(&mut more);
                assert(views(nodes@) =~= expected);
            },
            Err(stop) => return Err(stop),
        }
    }
    if let Some(http1) = &detect.http1 {
        match create_http1_nodes(ctx, http1) {
            Ok(mut more) => {
                proof {
                    expected = expected + views(more@);
                }
                nodes.append(&mut more);
                assert(views(nodes@) =~= expected);
            },
            Err(stop) => return Err(stop),
        }
    }
    if let Some(http2) = &detect.http2 {
        match create_http2_nodes(ctx, http2) {
            Ok(mut more) => {
                proof {
                    expected = expected + views(more@);
                }
                nodes.append(&mut more);
                assert(views(nodes@) =~= expected);
            },
            Err(stop) => return Err(stop),
        }
    }
    let ghost run = detect_run(*detect, old(ctx).replies@, old(ctx).at as int);
    assert(run->Done_0 =~= expected);
    Ok(nodes)
}

/// A finished trace stands under the name of the service.
pub proof fn law_trace_is_headed_by_service(
    service: ServiceDescription,
    log: Seq<Reply>,
    at: int,
)
    requires
        service.trace(log, at) is Done,
    ensures
        service.trace(log, at)->Done_0.root == NodeView::Node(service.heading()),
{
}

/// The default policy is shown as its HTTP/1 routes are, after a label that says that the
/// protocol is detected.
pub proof fn law_default_policy_is_shown_once(detect: Detect, log: Seq<Reply>, at: int)
    requires
        is_default(detect),
    ensures
        match (
            protocol_run(ProtocolKind::Detect(detect), log, at),
            protocol_run(ProtocolKind::Http1(detect.http1->0), log, at),
        ) {
            (Run::Done(trees, end), Run::Done(http1_trees, http1_end)) => {
                &&& trees.drop_first() == http1_trees
                &&& trees[0] == label("protocol"@, "detect (opaque, HTTP/1, HTTP/2)"@)
                &&& end == http1_end
            },
            (Run::Stop(stop), Run::Stop(http1_stop)) => stop == http1_stop,
            _ => false,
        },
{
    if let Run::Done(trees, _) = protocol_run(ProtocolKind::Detect(detect), log, at) {
        assert(trees.drop_first() =~= http1_run(detect.http1->0, log, at)->Done_0);
    }
}

/// The opaque routes, none where they are absent.
pub open spec fn opaque_routes(opaque: Option<Opaque>) -> Seq<OpaqueRoute> {
    if opaque is Some {
        opaque->0.routes@
    } else {
        Seq::empty()
    }
}

/// The HTTP/1 routes, none where they are absent.
pub open spec fn http1_routes(http1: Option<Http1>) -> Seq<HttpRoute> {
    if http1 is Some {
        http1->0.routes@
    } else {
        Seq::empty()
    }
}

/// The HTTP/2 routes, none where they are absent.
pub open spec fn http2_routes(http2: Option<Http2>) -> Seq<HttpRoute> {
    if http2 is Some {
        http2->0.routes@
    } else {
        Seq::empty()
    }
}

/// The heading of a route that has one.
pub open spec fn heading_of(metadata: Option<Metadata>, protocol: Seq<char>) -> NodeView {
    NodeView::Node(route_heading(metadata->0.kind->0, protocol))
}

/// A policy other than the default one shows, after a label, one tree for every opaque route, then
/// one for every HTTP/1 route, then one for every HTTP/2 route, each under the heading of its route
/// with its protocol, and over the rules of its route.
pub proof fn law_detected_policy_shows_every_route(detect: Detect, log: Seq<Reply>, at: int)
    requires
        !is_default(detect),
        protocol_run(ProtocolKind::Detect(detect), log, at) is Done,
    ensures
        ({
            let trees = protocol_run(ProtocolKind::Detect(detect), log, at)->Done_0;
            let opaque = opaque_routes(detect.opaque);
            let http1 = http1_routes(detect.http1);
            let http2 = http2_routes(detect.http2);
            &&& trees.len() == 1 + opaque.len() + http1.len() + http2.len()
            &&& trees[0] == label("protocol"@, "detect"@)
            &&& forall|i: int|
                #![trigger opaque[i]]
                0 <= i < opaque.len() ==> trees[1 + i].root == heading_of(
                    opaque[i].metadata,
                    "opaque"@,
                ) && trees[1 + i].leaves.len() == opaque[i].rules@.len()
            &&& forall|i: int|
                #![trigger http1[i]]
                0 <= i < http1.len() ==> trees[1 + opaque.len() + i].root == heading_of(
                    http1[i].metadata,
                    "HTTP/1"@,
                ) && trees[1 + opaque.len() + i].leaves.len() == http1[i].rules@.len()
            &&& forall|i: int|
                #![trigger http2[i]]
                0 <= i < http2.len() ==> trees[1 + opaque.len() + http1.len() + i].root
                    == heading_of(http2[i].metadata, "HTTP/2"@) && trees[1 + opaque.len()
                    + http1.len() + i].leaves.len() == http2[i].rules@.len()
        }),
{
    let trees = protocol_run(ProtocolKind::Detect(detect), log, at)->Done_0;
    let first = opaque_part(detect.opaque, log, at);
    let second = http1_part(detect.http1, log, first->Done_1);
    let third = http2_part(detect.http2, log, second->Done_1);
    if let Some(opaque) = detect.opaque {
        crate::protocol::opaque::law_one_node_per_route_and_rule(opaque.routes@, log, at);
    }
    if let Some(http1) = detect.http1 {
        let from = first->Done_1;
        crate::protocol::http::law_one_node_per_route_and_rule(
            http1.routes@,
            "HTTP/1"@,
            log,
            from,
        );
    }
    if let Some(http2) = detect.http2 {
        let from = second->Done_1;
        crate::protocol::http::law_one_node_per_route_and_rule(
            http2.routes@,
            "HTTP/2"@,
            log,
            from,
        );
    }
    let n = first->Done_0.len();
    let m = second->Done_0.len();
    assert(trees =~= seq![trees[0]] + first->Done_0 + second->Done_0 + third->Done_0);
    assert forall|i: int| 0 <= i < n implies trees[1 + i] == #[trigger] first->Done_0[i] by {}
    assert forall|i: int| 0 <= i < m implies trees[1 + n + i] == #[trigger] second->Done_0[i] by {}
    assert forall|i: int| 0 <= i < third->Done_0.len() implies trees[1 + n + m + i]
        == #[trigger] third->Done_0[i] by {}
}

/// The trees of a policy that is not the default one are those that its three parts come to, each
/// read on from where the one before ended.
pub proof fn law_detected_parts_follow_each_other(detect: Detect, log: Seq<Reply>, at: int)
    requires
        !is_default(detect),
    ensures
        ({
            let whole = protocol_run(ProtocolKind::Detect(detect), log, at);
            let opaque = match detect.opaque {
                Some(opaque) => protocol_run(ProtocolKind::Opaque(opaque), log, at),
                None => Run::Done(Seq::empty(), at),
            };
            let http1 = match detect.http1 {
                Some(http1) => protocol_run(ProtocolKind::Http1(http1), log, opaque->Done_1),
                None => Run::Done(Seq::empty(), opaque->Done_1),
            };
            let http2 = match detect.http2 {
                Some(http2) => protocol_run(ProtocolKind::Http2(http2), log, http1->Done_1),
                None => Run::Done(Seq::empty(), http1->Done_1),
            };
            &&& whole is Done <==> opaque is Done && http1 is Done && http2 is Done
            &&& whole matches Run::Done(trees, end) ==> trees.drop_first() == opaque->Done_0
                + http1->Done_0 + http2->Done_0 && end == http2->Done_1
            &&& opaque is Stop ==> whole == opaque
            &&& opaque is Done && http1 is Stop ==> whole == http1
            &&& opaque is Done && http1 is Done && http2 is Stop ==> whole == http2
        }),
{
    let whole = protocol_run(ProtocolKind::Detect(detect), log, at);
    let opaque = opaque_part(detect.opaque, log, at);
    let http1 = http1_part(detect.http1, log, opaque->Done_1);
    let http2 = http2_part(detect.http2, log, http1->Done_1);
    if let Run::Done(trees, _) = whole {
        assert(trees.drop_first() =~= opaque->Done_0 + http1->Done_0 + http2->Done_0);
    }
}

/// A policy of one protocol shows one tree for every route, under its heading and over its rules,
/// and no label. The other protocols cannot be shown.
pub proof fn law_plain_policy_shows_every_route(kind: ProtocolKind, log: Seq<Reply>, at: int)
    ensures
        match kind {
            ProtocolKind::Opaque(opaque) => protocol_run(kind, log, at) matches Run::Done(trees, _)
                ==> trees.len() == opaque.routes@.len() && forall|i: int|
                #![trigger opaque.routes@[i]]
                0 <= i < trees.len() ==> trees[i].root == heading_of(
                    opaque.routes@[i].metadata,
                    "opaque"@,
                ) && trees[i].leaves.len() == opaque.routes@[i].rules@.len(),
            ProtocolKind::Http1(http1) => protocol_run(kind, log, at) matches Run::Done(trees, _)
                ==> trees.len() == http1.routes@.len() && forall|i: int|
                #![trigger http1.routes@[i]]
                0 <= i < trees.len() ==> trees[i].root == heading_of(
                    http1.routes@[i].metadata,
                    "HTTP/1"@,
                ) && trees[i].leaves.len() == http1.routes@[i].rules@.len(),
            ProtocolKind::Http2(http2) => protocol_run(kind, log, at) matches Run::Done(trees, _)
                ==> trees.len() == http2.routes@.len() && forall|i: int|
                #![trigger http2.routes@[i]]
                0 <= i < trees.len() ==> trees[i].root == heading_of(
                    http2.routes@[i].metadata,
                    "HTTP/2"@,
                ) && trees[i].leaves.len() == http2.routes@[i].rules@.len(),
            ProtocolKind::Detect(_) => true,
            _ => protocol_run(kind, log, at) == Run::<Seq<TreeView>>::Stop(
                StopView::Abort(AbortView::Unsupported),
            ),
        },
{
    if protocol_run(kind, log, at) is Done {
        match kind {
            ProtocolKind::Opaque(opaque) => {
                crate::protocol::opaque::law_one_node_per_route_and_rule(opaque.routes@, log, at);
            },
            ProtocolKind::Http1(http1) => {
                let routes = http1.routes@;
                crate::protocol::http::law_one_node_per_route_and_rule(
                    routes,
                    "HTTP/1"@,
                    log,
                    at,
                );
            },
            ProtocolKind::Http2(http2) => {
                let routes = http2.routes@;
                crate::protocol::http::law_one_node_per_route_and_rule(
                    routes,
                    "HTTP/2"@,
                    log,
                    at,
                );
            },
            _ => {},
        }
    }
}

/// The default policy shows, after a label, one tree for every HTTP/1 route, and no route of the
/// other protocols.
pub proof fn law_default_policy_shows_every_http1_route(detect: Detect, log: Seq<Reply>, at: int)
    requires
        is_default(detect),
        protocol_run(ProtocolKind::Detect(detect), log, at) is Done,
    ensures
        ({
            let trees = protocol_run(ProtocolKind::Detect(detect), log, at)->Done_0;
            let http1 = http1_routes(detect.http1);
            &&& trees.len() == 1 + http1.len()
            &&& trees[0] == label("protocol"@, "detect (opaque, HTTP/1, HTTP/2)"@)
            &&& forall|i: int|
                #![trigger http1[i]]
                0 <= i < http1.len() ==> trees[1 + i].root == heading_of(
                    http1[i].metadata,
                    "HTTP/1"@,
                ) && trees[1 + i].leaves.len() == http1[i].rules@.len()
        }),
{
    let routes = detect.http1->0.routes@;
    let shown = http1_run(detect.http1->0, log, at)->Done_0;
    let trees = protocol_run(ProtocolKind::Detect(detect), log, at)->Done_0;
    crate::protocol::http::law_one_node_per_route_and_rule(routes, "HTTP/1"@, log, at);
    assert forall|i: int| 0 <= i < shown.len() implies trees[1 + i] == #[trigger] shown[i] by {}
}

/// A trace is the nodes of the policy under the name and the namespace of the service. It stops
/// where those do, and where one of these is absent.
pub proof fn law_trace_shows_the_policy(service: ServiceDescription, log: Seq<Reply>, at: int)
    ensures
        ({
            let meta = service.svc.metadata;
            let protocol = service.policy.protocol;
            let nodes = protocol_run(protocol->0.kind->0, log, at);
            if meta.name is Some && meta.namespace is Some && protocol is Some
                && protocol->0.kind is Some {
                match nodes {
                    Run::Done(trees, end) => service.trace(log, at) == Run::Done(
                        TreeView {
                            root: NodeView::Node(
                                "trace for service "@ + meta.name->0@ + "."@ + meta.namespace->0@,
                            ),
                            leaves: trees,
                        },
                        end,
                    ),
                    Run::Stop(stop) => service.trace(log, at) == Run::<TreeView>::Stop(stop),
                }
            } else {
                service.trace(log, at) == Run::<TreeView>::Stop(
                    StopView::Abort(AbortView::Missing),
                )
            }
        }),
{
}

} // verus!
