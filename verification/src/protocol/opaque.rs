//! Opaque routes in a trace.
use crate::ctx::{
    abort, comes_to, lemma_run_all_done, lemma_run_all_stop, run_all, Abort, AbortView, Reply, Run,
    Stop, TraceCtx,
};
use crate::policy::{
    Opaque, OpaqueDistribution, OpaqueDistributionKind, OpaqueRoute, OpaqueRouteBackend, OpaqueRule,
};
use crate::protocol::{
    backend_run, create_backend_node, ended, ended_all, headed, node_from_meta, route_heading,
    under,
};
use crate::text::{append_decimal, decimal};
use crate::tree::{label, node, views, NodeView, TraceNode, TraceTree, TreeView};
use vstd::prelude::*;
use vstd::string::*;

verus! {

/// The node for a backend that is used where those before it are not available.
pub open spec fn route_backend_run(
    route_backend: OpaqueRouteBackend,
    log: Seq<Reply>,
    at: int,
) -> Run<TreeView> {
    match route_backend.backend {
        None => abort(AbortView::Missing),
        Some(backend) => backend_run(backend, log, at),
    }
}

/// [`route_backend_run`] on given replies.
pub open spec fn route_backend_step(log: Seq<Reply>) -> spec_fn(
    int,
    OpaqueRouteBackend,
    int,
) -> Run<TreeView> {
    |i: int, route_backend: OpaqueRouteBackend, at: int| route_backend_run(route_backend, log, at)
}

/// The node for the backends of a rule.
pub open spec fn distribution_run(
    distribution: OpaqueDistribution,
    log: Seq<Reply>,
    at: int,
) -> Run<TreeView> {
    match distribution.kind {
        None => abort(AbortView::Missing),
        Some(OpaqueDistributionKind::Empty) => Run::Done(label("backends"@, "<empty>"@), at),
        Some(OpaqueDistributionKind::FirstAvailable(backends)) => headed(
            "backends (first available)"@,
            run_all(backends@, route_backend_step(log), at),
        ),
        Some(OpaqueDistributionKind::RandomAvailable(_)) => abort(AbortView::Unsupported),
    }
}

/// The node for the rule that has number `i` in its route.
pub open spec fn rule_run(i: int, rule: OpaqueRule, log: Seq<Reply>, at: int) -> Run<TreeView> {
    match rule.backends {
        None => abort(AbortView::Missing),
        Some(distribution) => match distribution_run(distribution, log, at) {
            Run::Stop(stop) => Run::Stop(stop),
            Run::Done(backends, at) => Run::Done(
                node("<rule "@ + decimal(i as nat) + ">"@).with(backends),
                at,
            ),
        },
    }
}

/// [`rule_run`] on given replies.
pub open spec fn rule_step(log: Seq<Reply>) -> spec_fn(int, OpaqueRule, int) -> Run<TreeView> {
    |i: int, rule: OpaqueRule, at: int| rule_run(i, rule, log, at)
}

/// The node for a route.
pub open spec fn route_run(route: OpaqueRoute, log: Seq<Reply>, at: int) -> Run<TreeView> {
    match route.metadata {
        None => abort(AbortView::Missing),
        Some(meta) => match meta.kind {
            None => abort(AbortView::Missing),
            Some(kind) => headed(
                route_heading(kind, "opaque"@),
                run_all(route.rules@, rule_step(log), at),
            ),
        },
    }
}

/// [`route_run`] on given replies.
pub open spec fn route_step(log: Seq<Reply>) -> spec_fn(int, OpaqueRoute, int) -> Run<TreeView> {
    |i: int, route: OpaqueRoute, at: int| route_run(route, log, at)
}

/// The nodes for opaque routes.
pub open spec fn routes_run(routes: Seq<OpaqueRoute>, log: Seq<Reply>, at: int) -> Run<
    Seq<TreeView>,
> {
    run_all(routes, route_step(log), at)
}

/// The node for a backend that is used where those before it are not available.
fn create_route_backend_node(
    ctx: &mut TraceCtx<'_>,
    route_backend: &OpaqueRouteBackend,
) -> (result: Result<TraceTree, Stop>)
    ensures
        final(ctx).replies == old(ctx).replies,
        route_backend_run(*route_backend, old(ctx).replies@, old(ctx).at as int)
            == ended(result, final(ctx).at),
{
    match &route_backend.backend {
        Some(backend) => create_backend_node(ctx, backend),
        None => Err(Stop::Abort(Abort::Missing)),
    }
}

/// The nodes for backends of which the first that is available is used.
fn create_route_backend_nodes(
    ctx: &mut TraceCtx<'_>,
    backends: &Vec<OpaqueRouteBackend>,
) -> (result: Result<Vec<TraceTree>, Stop>)
    ensures
        final(ctx).replies == old(ctx).replies,
        run_all(backends@, route_backend_step(old(ctx).replies@), old(ctx).at as int)
            == ended_all(result, final(ctx).at),
{
    let ghost log = ctx.replies@;
    let ghost start = ctx.at as int;
    let ghost step = route_backend_step(log);
    let mut trees: Vec<TraceTree> = Vec::new();
    let mut i: usize = 0;
    assert(backends@.take(0) =~= Seq::<OpaqueRouteBackend>::empty());
    assert(views(trees@) =~= Seq::<TreeView>::empty());
    while i < backends.len()
        invariant
            i <= backends.len(),
            ctx.replies == old(ctx).replies,
            log == ctx.replies@,
            start == old(ctx).at,
            step == route_backend_step(log),
            run_all(backends@.take(i as int), step, start) == Run::Done(
                views(trees@),
                ctx.at as int,
            ),
        decreases backends.len() - i,
    {
        assert(backends@.take(i + 1).drop_last() =~= backends@.take(i as int));
        let ghost before = views(trees@);
        match create_route_backend_node(ctx, &backends[i]) {
            Ok(tree) => {
                trees.push(tree);
                assert(views(trees@) =~= before.push(tree@));
            },
            Err(stop) => {
                proof {
                    lemma_run_all_stop(backends@, i + 1, step, start);
                }
                return Err(stop);
            },
        }
        i += 1;
    }
    assert(backends@.take(i as int) =~= backends@);
    Ok(trees)
}

/// The node for the backends of a rule.
fn create_distribution_node(
    ctx: &mut TraceCtx<'_>,
    distribution: &OpaqueDistribution,
) -> (result: Result<TraceTree, Stop>)
    ensures
        final(ctx).replies == old(ctx).replies,
        distribution_run(*distribution, old(ctx).replies@, old(ctx).at as int)
            == ended(result, final(ctx).at),
{
    match &distribution.kind {
        None => Err(Stop::Abort(Abort::Missing)),
        Some(OpaqueDistributionKind::Empty) => Ok(
            TraceNode::label("backends".to_owned(), "<empty>".to_owned()),
        ),
        Some(OpaqueDistributionKind::FirstAvailable(backends)) => {
            match create_route_backend_nodes(ctx, backends) {
                Ok(trees) => Ok(under("backends (first available)", trees)),
                Err(stop) => Err(stop),
            }
        },
        Some(OpaqueDistributionKind::RandomAvailable(_)) => Err(
            Stop::Abort(Abort::Unsupported),
        ),
    }
}

/// The node for the rule that has number `i` in its route.
fn create_rule_node(ctx: &mut TraceCtx<'_>, i: usize, rule: &OpaqueRule) -> (result: Result<
    TraceTree,
    Stop,
>)
    ensures
        final(ctx).replies == old(ctx).replies,
        rule_run(i as int, *rule, old(ctx).replies@, old(ctx).at as int)
            == ended(result, final(ctx).at),
{
    let mut text = "<rule ".to_owned();
    append_decimal(&mut text, i as u64);
    text.append(">");
    let mut tree = TraceNode::node(text);
    let distribution = match &rule.backends {
        Some(distribution) => distribution,
        None => return Err(Stop::Abort(Abort::Missing)),
    };
    match create_distribution_node(ctx, distribution) {
        Ok(backends) => tree.push(backends),
        Err(stop) => return Err(stop),
    }
    Ok(tree)
}

/// The nodes for the rules of a route.
fn create_rule_nodes(ctx: &mut TraceCtx<'_>, rules: &Vec<OpaqueRule>) -> (result: Result<
    Vec<TraceTree>,
    Stop,
>)
    ensures
        final(ctx).replies == old(ctx).replies,
        run_all(rules@, rule_step(old(ctx).replies@), old(ctx).at as int)
            == ended_all(result, final(ctx).at),
{
    let ghost log = ctx.replies@;
    let ghost start = ctx.at as int;
    let ghost step = rule_step(log);
    let mut trees: Vec<TraceTree> = Vec::new();
    let mut i: usize = 0;
    assert(rules@.take(0) =~= Seq::<OpaqueRule>::empty());
    assert(views(trees@) =~= Seq::<TreeView>::empty());
    while i < rules.len()
        invariant
            i <= rules.len(),
            ctx.replies == old(ctx).replies,
            log == ctx.replies@,
            start == old(ctx).at,
            step == rule_step(log),
            run_all(rules@.take(i as int), step, start) == Run::Done(
                views(trees@),
                ctx.at as int,
            ),
        decreases rules.len() - i,
    {
        assert(rules@.take(i + 1).drop_last() =~= rules@.take(i as int));
        let ghost before = views(trees@);
        match create_rule_node(ctx, i, &rules[i]) {
            Ok(tree) => {
                trees.push(tree);
                assert(views(trees@) =~= before.push(tree@));
            },
            Err(stop) => {
                proof {
                    lemma_run_all_stop(rules@, i + 1, step, start);
                }
                return Err(stop);
            },
        }
        i += 1;
    }
    assert(rules@.take(i as int) =~= rules@);
    Ok(trees)
}

/// The node for a route.
fn create_route_node(ctx: &mut TraceCtx<'_>, route: &OpaqueRoute) -> (result: Result<
    TraceTree,
    Stop,
>)
    ensures
        final(ctx).replies == old(ctx).replies,
        route_run(*route, old(ctx).replies@, old(ctx).at as int) == ended(result, final(ctx).at),
{
    let meta = match &route.metadata {
        Some(meta) => meta,
        None => return Err(Stop::Abort(Abort::Missing)),
    };
    if meta.kind.is_none() {
        return Err(Stop::Abort(Abort::Missing));
    }
    let tree = node_from_meta(meta, "opaque");
    match create_rule_nodes(ctx, &route.rules) {
        Ok(rules) => Ok(tree.with_leaves(rules)),
        Err(stop) => Err(stop),
    }
}

/// The nodes for the opaque routes of a service.
pub fn create_opaque_nodes(ctx: &mut TraceCtx<'_>, opaq: &Opaque) -> (result: Result<
    Vec<TraceTree>,
    Stop,
>)
    ensures
        final(ctx).replies == old(ctx).replies,
        routes_run(opaq.routes@, old(ctx).replies@, old(ctx).at as int)
            == ended_all(result, final(ctx).at),
{
    let ghost log = ctx.replies@;
    let ghost start = ctx.at as int;
    let ghost step = route_step(log);
    let mut trees: Vec<TraceTree> = Vec::new();
    let mut i: usize = 0;
    assert(opaq.routes@.take(0) =~= Seq::<OpaqueRoute>::empty());
    assert(views(trees@) =~= Seq::<TreeView>::empty());
    while i < opaq.routes.len()
        invariant
            i <= opaq.routes.len(),
            ctx.replies == old(ctx).replies,
            log == ctx.replies@,
            start == old(ctx).at,
            step == route_step(log),
            run_all(opaq.routes@.take(i as int), step, start) == Run::Done(
                views(trees@),
                ctx.at as int,
            ),
        decreases opaq.routes.len() - i,
    {
        assert(opaq.routes@.take(i + 1).drop_last() =~= opaq.routes@.take(i as int));
        let ghost before = views(trees@);
        match create_route_node(ctx, &opaq.routes[i]) {
            Ok(tree) => {
                trees.push(tree);
                assert(views(trees@) =~= before.push(tree@));
            },
            Err(stop) => {
                proof {
                    lemma_run_all_stop(opaq.routes@, i + 1, step, start);
                }
                return Err(stop);
            },
        }
        i += 1;
    }
    assert(opaq.routes@.take(i as int) =~= opaq.routes@);
    Ok(trees)
}

/// Every backend of a rule has a node, in order.
pub proof fn law_one_node_per_backend(distribution: OpaqueDistribution, log: Seq<Reply>, at: int)
    requires
        distribution_run(distribution, log, at) is Done,
    ensures
        distribution_run(distribution, log, at)->Done_0.leaves.len() == (
        match distribution.kind->0 {
            OpaqueDistributionKind::FirstAvailable(backends) => backends@.len(),
            _ => 0,
        }),
{
    if let OpaqueDistributionKind::FirstAvailable(backends) = distribution.kind->0 {
        lemma_run_all_done(backends@, route_backend_step(log), at);
    }
}

/// Every route has a node under its heading. Every rule of it has a node under its number, in
/// order, with one leaf for its backends.
pub proof fn law_one_node_per_route_and_rule(routes: Seq<OpaqueRoute>, log: Seq<Reply>, at: int)
    requires
        routes_run(routes, log, at) is Done,
    ensures
        routes_run(routes, log, at)->Done_0.len() == routes.len(),
        forall|i: int|
            0 <= i < routes.len() ==> {
                let tree = #[trigger] routes_run(routes, log, at)->Done_0[i];
                &&& tree.root == NodeView::Node(
                    route_heading(routes[i].metadata->0.kind->0, "opaque"@),
                )
                &&& tree.leaves.len() == routes[i].rules@.len()
                &&& forall|j: int|
                    0 <= j < tree.leaves.len() ==> (#[trigger] tree.leaves[j]).root
                        == NodeView::Node("<rule "@ + decimal(j as nat) + ">"@)
                        && tree.leaves[j].leaves.len() == 1
            },
{
    let step = route_step(log);
    lemma_run_all_done(routes, step, at);
    let trees = routes_run(routes, log, at)->Done_0;
    assert forall|i: int| 0 <= i < routes.len() implies ({
        let tree = #[trigger] trees[i];
        &&& tree.root == NodeView::Node(route_heading(routes[i].metadata->0.kind->0, "opaque"@))
        &&& tree.leaves.len() == routes[i].rules@.len()
        &&& forall|j: int|
            0 <= j < tree.leaves.len() ==> (#[trigger] tree.leaves[j]).root == NodeView::Node(
                "<rule "@ + decimal(j as nat) + ">"@,
            ) && tree.leaves[j].leaves.len() == 1
    }) by {
        let tree = trees[i];
        assert(comes_to(step, i, routes[i], tree));
        let from = choose|from: int| (#[trigger] step(i, routes[i], from)) is Done && step(
            i,
            routes[i],
            from,
        )->Done_0 == tree;
        let rules = routes[i].rules@;
        lemma_run_all_done(rules, rule_step(log), from);
        assert forall|j: int| 0 <= j < tree.leaves.len() implies (#[trigger] tree.leaves[j]).root
            == NodeView::Node("<rule "@ + decimal(j as nat) + ">"@)
            && tree.leaves[j].leaves.len() == 1 by {
            assert(comes_to(rule_step(log), j, rules[j], tree.leaves[j]));
        }
    }
}

} // verus!
