//! HTTP routes in a trace.
use crate::ctx::{
    abort, comes_to, lemma_run_all_done, lemma_run_all_stop, run_all, Abort, AbortView, Reply, Run,
    Stop, StopView, TraceCtx,
};
use crate::policy::{
    BackendKind, FailureInjector, Filter, FilterKind, HeaderMatch, HeaderValue, Http1, Http2,
    HttpDistribution, HttpDistributionKind, HttpMethod, HttpRoute, HttpRouteBackend,
    HttpRouteMatch, HttpRule, MethodKind, PathKind, PathMatch, QueryParamMatch, QueryValue,
    WeightedHttpRouteBackend,
};
use crate::protocol::{
    backend_run, balancer_path, create_backend_node, ended, ended_all, headed, metadata_node,
    metadata_run, node_from_meta, path_of_balancer, route_heading, under,
};
use crate::text::{append_decimal, decimal};
use crate::tree::{label, node, views, NodeView, TraceNode, TraceTree, TreeView};
use linkerd2_proxy_api::http_types::http_method::Registered;
use vstd::prelude::*;
use vstd::string::*;
use vstd::utf8::*;

verus! {

/// The text that `String::from_utf8_lossy` makes of bytes that are not valid UTF-8.
pub uninterp spec fn lossy(bytes: Seq<u8>) -> Seq<char>;

/// The text that is shown for bytes.
pub open spec fn readable(bytes: Seq<u8>) -> Seq<char> {
    if valid_utf8(bytes) {
        decode_utf8(bytes)
    } else {
        lossy(bytes)
    }
}

/// `String::from_utf8_lossy`: what the bytes encode where they are valid UTF-8. Otherwise too the
/// text depends on the bytes alone; which characters stand in for what is not valid is left
/// unsaid.
#[verifier::external_body]
fn lossy_text(bytes: &Vec<u8>) -> (text: String)
    ensures
        valid_utf8(bytes@) ==> text@ == decode_utf8(bytes@),
        !valid_utf8(bytes@) ==> text@ == lossy(bytes@),
{
    String::from_utf8_lossy(bytes).into_owned()
}

/// The name of the method that has a number.
pub open spec fn method_name(code: i32) -> Option<Seq<char>> {
    if code == 0 {
        Some("GET"@)
    } else if code == 1 {
        Some("POST"@)
    } else if code == 2 {
        Some("PUT"@)
    } else if code == 3 {
        Some("DELETE"@)
    } else if code == 4 {
        Some("PATCH"@)
    } else if code == 5 {
        Some("OPTIONS"@)
    } else if code == 6 {
        Some("CONNECT"@)
    } else if code == 7 {
        Some("HEAD"@)
    } else if code == 8 {
        Some("TRACE"@)
    } else {
        None
    }
}

/// `Registered::try_from` with `Registered::as_str_name`, of the proxy API: the nine numbers that
/// stand for a method have its name in capitals, all others are refused.
#[verifier::external_body]
fn registered_name(code: i32) -> (name: Result<String, i32>)
    ensures
        match method_name(code) {
            Some(expected) => name is Ok && name->Ok_0@ == expected,
            None => name == Err::<String, i32>(code),
        },
{
    match Registered::try_from(code) {
        Ok(method) => Ok(method.as_str_name().to_string()),
        Err(_) => Err(code),
    }
}

/// What is shown for the value that a header has to have.
pub open spec fn header_value(value: Option<HeaderValue>) -> Seq<char> {
    match value {
        Some(HeaderValue::Exact(bytes)) => readable(bytes@),
        Some(HeaderValue::Regex(regex)) => "Regex: "@ + regex@,
        None => "\"\""@,
    }
}

/// A heading with a label for every header.
pub open spec fn headers_tree(headers: Seq<HeaderMatch>) -> TreeView {
    TreeView {
        root: NodeView::Node("headers (all)"@),
        leaves: Seq::new(
            headers.len(),
            |i: int| label(headers[i].name@, header_value(headers[i].value)),
        ),
    }
}

/// The headers, where there are any.
pub open spec fn header_trees(headers: Seq<HeaderMatch>) -> Seq<TreeView> {
    if headers.len() == 0 {
        Seq::empty()
    } else {
        seq![headers_tree(headers)]
    }
}

/// The method, where one is asked for.
pub open spec fn method_trees(method: Option<HttpMethod>) -> Result<Seq<TreeView>, StopView> {
    match method {
        None => Ok(Seq::empty()),
        Some(method) => match method.kind {
            None => Err(StopView::Abort(AbortView::Missing)),
            Some(MethodKind::Unregistered(name)) => Ok(seq![label("method"@, name@)]),
            Some(MethodKind::Registered(code)) => match method_name(code) {
                Some(name) => Ok(seq![label("method"@, name)]),
                None => Err(StopView::UnknownMethod(code)),
            },
        },
    }
}

/// The path, where one is asked for.
pub open spec fn path_trees(path: Option<PathMatch>) -> Result<Seq<TreeView>, StopView> {
    match path {
        None => Ok(Seq::empty()),
        Some(path) => match path.kind {
            None => Err(StopView::Abort(AbortView::Missing)),
            Some(PathKind::Exact(s)) => Ok(seq![label("exact path"@, s@)]),
            Some(PathKind::Prefix(s)) => Ok(seq![label("path prefix"@, s@)]),
            Some(PathKind::Regex(s)) => Ok(seq![label("path regex"@, s@)]),
        },
    }
}

/// A query parameter, with its value where one is asked for.
pub open spec fn query_param_tree(param: QueryParamMatch) -> TreeView {
    match param.value {
        Some(QueryValue::Exact(s)) => label(param.name@, s@),
        Some(QueryValue::Regex(r)) => label(param.name@, "regex: "@ + r@),
        None => node(param.name@),
    }
}

/// A heading with every query parameter.
pub open spec fn query_tree(params: Seq<QueryParamMatch>) -> TreeView {
    TreeView {
        root: NodeView::Node("query params (all)"@),
        leaves: Seq::new(params.len(), |i: int| query_param_tree(params[i])),
    }
}

/// The query parameters, where there are any.
pub open spec fn query_trees(params: Seq<QueryParamMatch>) -> Seq<TreeView> {
    if params.len() == 0 {
        Seq::empty()
    } else {
        seq![query_tree(params)]
    }
}

/// What one match asks for: headers, method, path and query parameters.
pub open spec fn match_trees(m: HttpRouteMatch) -> Result<Seq<TreeView>, StopView> {
    match method_trees(m.method) {
        Err(stop) => Err(stop),
        Ok(method) => match path_trees(m.path) {
            Err(stop) => Err(stop),
            Ok(path) => Ok(
                header_trees(m.headers@) + method + path + query_trees(m.query_params@),
            ),
        },
    }
}

/// What all matches of a rule ask for.
pub open spec fn all_match_trees(matches: Seq<HttpRouteMatch>) -> Result<Seq<TreeView>, StopView>
    decreases matches.len(),
{
    if matches.len() == 0 {
        Ok(Seq::empty())
    } else {
        match all_match_trees(matches.drop_last()) {
            Err(stop) => Err(stop),
            Ok(before) => match match_trees(matches.last()) {
                Err(stop) => Err(stop),
                Ok(trees) => Ok(before + trees),
            },
        }
    }
}

/// How what the matches ask for stands in a rule: nothing, the one thing under its own heading,
/// or several under one heading.
pub open spec fn matches_leaf(trees: Seq<TreeView>) -> Seq<TreeView> {
    if trees.len() == 0 {
        Seq::empty()
    } else if trees.len() == 1 {
        seq![TreeView { root: trees[0].root.prefixed("matches"@), leaves: trees[0].leaves }]
    } else {
        seq![TreeView { root: NodeView::Node("matches (any)"@), leaves: trees }]
    }
}

/// The label for a filter.
pub open spec fn filter_tree(filter: Filter) -> Result<TreeView, StopView> {
    match filter.kind {
        None => Err(StopView::Abort(AbortView::Missing)),
        Some(FilterKind::FailureInjector(injector)) => Ok(
            label(
                "failure injector"@,
                injector.percent@ + "% of requests fail with code "@ + decimal(
                    injector.status as nat,
                ) + " and status "@ + injector.message@,
            ),
        ),
        Some(_) => Err(StopView::Abort(AbortView::Unsupported)),
    }
}

/// The labels for the filters of a rule.
pub open spec fn filter_trees(filters: Seq<Filter>) -> Result<Seq<TreeView>, StopView>
    decreases filters.len(),
{
    if filters.len() == 0 {
        Ok(Seq::empty())
    } else {
        match filter_trees(filters.drop_last()) {
            Err(stop) => Err(stop),
            Ok(before) => match filter_tree(filters.last()) {
                Err(stop) => Err(stop),
                Ok(tree) => Ok(before.push(tree)),
            },
        }
    }
}

/// The node for a backend that is used where those before it are not available.
pub open spec fn route_backend_run(
    route_backend: HttpRouteBackend,
    log: Seq<Reply>,
    at: int,
) -> Run<TreeView> {
    match route_backend.backend {
        None => abort(AbortView::Missing),
        Some(backend) => match backend_run(backend, log, at) {
            Run::Stop(stop) => Run::Stop(stop),
            Run::Done(tree, at) => if route_backend.filters@.len() > 0 {
                abort(AbortView::Unsupported)
            } else {
                Run::Done(tree, at)
            },
        },
    }
}

/// The node for a backend that is used for a share of the requests. What it came from is looked
/// up, though only its path and its weight are shown.
pub open spec fn weighted_run(
    weighted: WeightedHttpRouteBackend,
    log: Seq<Reply>,
    at: int,
) -> Run<TreeView> {
    match weighted.backend {
        None => abort(AbortView::Missing),
        Some(route_backend) => match route_backend.backend {
            None => abort(AbortView::Missing),
            Some(backend) => match backend.metadata {
                None => abort(AbortView::Missing),
                Some(meta) => match metadata_run(meta, log, at) {
                    Run::Stop(stop) => Run::Stop(stop),
                    Run::Done(_, at) => match backend.kind {
                        None => abort(AbortView::Missing),
                        Some(BackendKind::Forward) => abort(AbortView::Unsupported),
                        Some(BackendKind::Balancer(balancer)) => match balancer_path(balancer) {
                            None => abort(AbortView::Missing),
                            Some(path) => if route_backend.filters@.len() > 0 {
                                abort(AbortView::Unsupported)
                            } else {
                                Run::Done(
                                    node(path).with(
                                        label("weight"@, decimal(weighted.weight as nat)),
                                    ),
                                    at,
                                )
                            },
                        },
                    },
                },
            },
        },
    }
}

/// [`route_backend_run`] on given replies.
pub open spec fn route_backend_step(log: Seq<Reply>) -> spec_fn(int, HttpRouteBackend, int) -> Run<
    TreeView,
> {
    |i: int, route_backend: HttpRouteBackend, at: int| route_backend_run(route_backend, log, at)
}

/// [`weighted_run`] on given replies.
pub open spec fn weighted_step(log: Seq<Reply>) -> spec_fn(
    int,
    WeightedHttpRouteBackend,
    int,
) -> Run<TreeView> {
    |i: int, weighted: WeightedHttpRouteBackend, at: int| weighted_run(weighted, log, at)
}

/// The node for the backends of a rule.
pub open spec fn distribution_run(
    distribution: HttpDistribution,
    log: Seq<Reply>,
    at: int,
) -> Run<TreeView> {
    match distribution.kind {
        None => abort(AbortView::Missing),
        Some(HttpDistributionKind::Empty) => Run::Done(label("backends"@, "<empty>"@), at),
        Some(HttpDistributionKind::FirstAvailable(backends)) => headed(
            "backends (first available)"@,
            run_all(backends@, route_backend_step(log), at),
        ),
        Some(HttpDistributionKind::RandomAvailable(backends)) => headed(
            "backends (random)"@,
            run_all(backends@, weighted_step(log), at),
        ),
    }
}

/// The node for the rule that has number `i` in its route.
pub open spec fn rule_run(i: int, rule: HttpRule, log: Seq<Reply>, at: int) -> Run<TreeView> {
    match all_match_trees(rule.matches@) {
        Err(stop) => Run::Stop(stop),
        Ok(matches) => match filter_trees(rule.filters@) {
            Err(stop) => Run::Stop(stop),
            Ok(filters) => match rule.backends {
                None => abort(AbortView::Unsupported),
                Some(distribution) => match distribution_run(distribution, log, at) {
                    Run::Stop(stop) => Run::Stop(stop),
                    Run::Done(backends, at) => Run::Done(
                        node("<rule "@ + decimal(i as nat) + ">"@).with_all(
                            matches_leaf(matches),
                        ).with_all(filters).with(backends),
                        at,
                    ),
                },
            },
        },
    }
}

/// [`rule_run`] on given replies.
pub open spec fn rule_step(log: Seq<Reply>) -> spec_fn(int, HttpRule, int) -> Run<TreeView> {
    |i: int, rule: HttpRule, at: int| rule_run(i, rule, log, at)
}

/// The node for a route.
pub open spec fn route_run(
    route: HttpRoute,
    protocol: Seq<char>,
    log: Seq<Reply>,
    at: int,
) -> Run<TreeView> {
    match route.metadata {
        None => abort(AbortView::Missing),
        Some(meta) => match meta.kind {
            None => abort(AbortView::Missing),
            Some(kind) => headed(
                route_heading(kind, protocol),
                run_all(route.rules@, rule_step(log), at),
            ),
        },
    }
}

/// [`route_run`] on given replies.
pub open spec fn route_step(protocol: Seq<char>, log: Seq<Reply>) -> spec_fn(
    int,
    HttpRoute,
    int,
) -> Run<TreeView> {
    |i: int, route: HttpRoute, at: int| route_run(route, protocol, log, at)
}

/// The nodes for routes of one protocol.
pub open spec fn routes_run(
    routes: Seq<HttpRoute>,
    protocol: Seq<char>,
    log: Seq<Reply>,
    at: int,
) -> Run<Seq<TreeView>> {
    run_all(routes, route_step(protocol, log), at)
}

/// What came of a part of a trace that reads no replies.
pub open spec fn made(result: Result<Vec<TraceTree>, Stop>) -> Result<Seq<TreeView>, StopView> {
    match result {
        Ok(trees) => Ok(views(trees@)),
        Err(stop) => Err(stop@),
    }
}

fn create_headers_node(headers: &Vec<HeaderMatch>) -> (tree: TraceTree)
    ensures
        tree@ == headers_tree(headers@),
{
    let mut tree = TraceNode::node("headers (all)".to_owned());
    let ghost expected = headers_tree(headers@);
    let mut i: usize = 0;
    assert(tree@.leaves =~= expected.leaves.take(0));
    while i < headers.len()
        invariant
            i <= headers.len(),
            expected == headers_tree(headers@),
            tree@.root == expected.root,
            tree@.leaves == expected.leaves.take(i as int),
        decreases headers.len() - i,
    {
        let value = match &headers[i].value {
            Some(HeaderValue::Exact(bytes)) => lossy_text(bytes),
            Some(HeaderValue::Regex(regex)) => {
                let mut text = "Regex: ".to_owned();
                text.append(regex.as_str());
                text
            },
            None => "\"\"".to_owned(),
        };
        tree.push(TraceNode::label(headers[i].name.clone(), value));
        i += 1;
        assert(tree@.leaves =~= expected.leaves.take(i as int));
    }
    assert(tree@.leaves =~= expected.leaves);
    tree
}

fn create_query_node(params: &Vec<QueryParamMatch>) -> (tree: TraceTree)
    ensures
        tree@ == query_tree(params@),
{
    let mut tree = TraceNode::node("query params (all)".to_owned());
    let ghost expected = query_tree(params@);
    let mut i: usize = 0;
    assert(tree@.leaves =~= expected.leaves.take(0));
    while i < params.len()
        invariant
            i <= params.len(),
            expected == query_tree(params@),
            tree@.root == expected.root,
            tree@.leaves == expected.leaves.take(i as int),
        decreases params.len() - i,
    {
        let name = params[i].name.clone();
        let leaf = match &params[i].value {
            Some(QueryValue::Exact(s)) => TraceNode::label(name, s.clone()),
            Some(QueryValue::Regex(r)) => {
                let mut text = "regex: ".to_owned();
                text.append(r.as_str());
                TraceNode::label(name, text)
            },
            None => TraceNode::node(name),
        };
        tree.push(leaf);
        i += 1;
        assert(tree@.leaves =~= expected.leaves.take(i as int));
    }
    assert(tree@.leaves =~= expected.leaves);
    tree
}

/// The node for a method.
fn create_method_node(method: &HttpMethod) -> (result: Result<TraceTree, Stop>)
    ensures
        method_trees(Some(*method)) == (match result {
            Ok(tree) => Ok(seq![tree@]),
            Err(stop) => Err(stop@),
        }),
{
    let name = match &method.kind {
        None => return Err(Stop::Abort(Abort::Missing)),
        Some(MethodKind::Unregistered(name)) => name.clone(),
        Some(MethodKind::Registered(code)) => match registered_name(*code) {
            Ok(name) => name,
            Err(code) => return Err(Stop::UnknownMethod(code)),
        },
    };
    Ok(TraceNode::label("method".to_owned(), name))
}

/// The node for a path.
fn create_path_node(path: &PathMatch) -> (result: Result<TraceTree, Stop>)
    ensures
        path_trees(Some(*path)) == (match result {
            Ok(tree) => Ok(seq![tree@]),
            Err(stop) => Err(stop@),
        }),
{
    match &path.kind {
        None => Err(Stop::Abort(Abort::Missing)),
        Some(PathKind::Exact(s)) => Ok(TraceNode::label("exact path".to_owned(), s.clone())),
        Some(PathKind::Prefix(s)) => Ok(TraceNode::label("path prefix".to_owned(), s.clone())),
        Some(PathKind::Regex(s)) => Ok(TraceNode::label("path regex".to_owned(), s.clone())),
    }
}

/// Adds what one match asks for to `trees`.
fn push_match(trees: &mut Vec<TraceTree>, m: &HttpRouteMatch) -> (result: Result<(), Stop>)
    ensures
        match match_trees(*m) {
            Ok(more) => result is Ok && views(final(trees)@) == views(old(trees)@) + more,
            Err(stop) => result is Err && result->Err_0@ == stop,
        },
{
    let ghost before = views(trees@);
    if m.headers.len() > 0 {
        trees.push(create_headers_node(&m.headers));
    }
    assert(views(trees@) =~= before + header_trees(m.headers@));
    let ghost before = views(trees@);
    if let Some(method) = &m.method {
        match create_method_node(method) {
            Ok(tree) => {
                trees.push(tree);
                assert(views(trees@) =~= before + seq![tree@]);
            },
            Err(stop) => return Err(stop),
        }
    }
    assert(views(trees@) =~= before + method_trees(m.method)->Ok_0);
    let ghost before = views(trees@);
    if let Some(path) = &m.path {
        match create_path_node(path) {
            Ok(tree) => {
                trees.push(tree);
                assert(views(trees@) =~= before + seq![tree@]);
            },
            Err(stop) => return Err(stop),
        }
    }
    assert(views(trees@) =~= before + path_trees(m.path)->Ok_0);
    let ghost before = views(trees@);
    if m.query_params.len() > 0 {
        trees.push(create_query_node(&m.query_params));
    }
    assert(views(trees@) =~= before + query_trees(m.query_params@));
    Ok(())
}

proof fn lemma_matches_stop(matches: Seq<HttpRouteMatch>, n: int)
    requires
        0 <= n <= matches.len(),
        all_match_trees(matches.take(n)) is Err,
    ensures
        all_match_trees(matches) == all_match_trees(matches.take(n)),
    decreases matches.len(),
{
    if n < matches.len() {
        assert(matches.drop_last().take(n) =~= matches.take(n));
        lemma_matches_stop(matches.drop_last(), n);
    } else {
        assert(matches.take(n) =~= matches);
    }
}

/// What all matches of a rule ask for.
fn create_match_nodes(matches: &Vec<HttpRouteMatch>) -> (result: Result<Vec<TraceTree>, Stop>)
    ensures
        made(result) == all_match_trees(matches@),
{
    let mut trees: Vec<TraceTree> = Vec::new();
    let mut i: usize = 0;
    assert(views(trees@) =~= Seq::<TreeView>::empty());
    while i < matches.len()
        invariant
            i <= matches.len(),
            all_match_trees(matches@.take(i as int)) == Ok::<Seq<TreeView>, StopView>(
                views(trees@),
            ),
        decreases matches.len() - i,
    {
        assert(matches@.take(i + 1).drop_last() =~= matches@.take(i as int));
        match push_match(&mut trees, &matches[i]) {
            Ok(()) => {},
            Err(stop) => {
                proof {
                    lemma_matches_stop(matches@, i + 1);
                }
                return Err(stop);
            },
        }
        i += 1;
    }
    assert(matches@.take(i as int) =~= matches@);
    Ok(trees)
}

/// Shows what the matches of a rule ask for below `rule_node`.
fn add_matches(rule_node: &mut TraceTree, trees: Vec<TraceTree>)
    ensures
        final(rule_node)@ == old(rule_node)@.with_all(matches_leaf(views(trees@))),
{
    let mut trees = trees;
    let ghost before = trees@;
    if trees.len() == 1 {
        let mut tree = trees.remove(0);
        assert(tree == before[0]);
        assert(views(before)[0] == before[0]@);
        tree.root.prefix("matches");
        rule_node.push(tree);
    } else if trees.len() > 1 {
        let heading = TraceNode::node("matches (any)".to_owned());
        rule_node.push(heading.with_leaves(trees));
    }
    assert(rule_node@.leaves =~= old(rule_node)@.leaves + matches_leaf(views(before)));
}

proof fn lemma_filters_stop(filters: Seq<Filter>, n: int)
    requires
        0 <= n <= filters.len(),
        filter_trees(filters.take(n)) is Err,
    ensures
        filter_trees(filters) == filter_trees(filters.take(n)),
    decreases filters.len(),
{
    if n < filters.len() {
        assert(filters.drop_last().take(n) =~= filters.take(n));
        lemma_filters_stop(filters.drop_last(), n);
    } else {
        assert(filters.take(n) =~= filters);
    }
}

/// The label for a filter.
fn create_filter_node(filter: &Filter) -> (result: Result<TraceTree, Stop>)
    ensures
        filter_tree(*filter) == (match result {
            Ok(tree) => Ok(tree@),
            Err(stop) => Err(stop@),
        }),
{
    match &filter.kind {
        None => Err(Stop::Abort(Abort::Missing)),
        Some(FilterKind::FailureInjector(injector)) => {
            let mut text = injector.percent.clone();
            text.append("% of requests fail with code ");
            append_decimal(&mut text, injector.status as u64);
            text.append(" and status ");
            text.append(injector.message.as_str());
            Ok(TraceNode::label("failure injector".to_owned(), text))
        },
        Some(_) => Err(Stop::Abort(Abort::Unsupported)),
    }
}

/// The labels for the filters of a rule.
fn create_filter_nodes(filters: &Vec<Filter>) -> (result: Result<Vec<TraceTree>, Stop>)
    ensures
        made(result) == filter_trees(filters@),
{
    let mut trees: Vec<TraceTree> = Vec::new();
    let mut i: usize = 0;
    assert(views(trees@) =~= Seq::<TreeView>::empty());
    while i < filters.len()
        invariant
            i <= filters.len(),
            filter_trees(filters@.take(i as int)) == Ok::<Seq<TreeView>, StopView>(views(trees@)),
        decreases filters.len() - i,
    {
        assert(filters@.take(i + 1).drop_last() =~= filters@.take(i as int));
        let ghost before = views(trees@);
        match create_filter_node(&filters[i]) {
            Ok(tree) => {
                trees.push(tree);
                assert(views(trees@) =~= before.push(tree@));
            },
            Err(stop) => {
                proof {
                    lemma_filters_stop(filters@, i + 1);
                }
                return Err(stop);
            },
        }
        i += 1;
    }
    assert(filters@.take(i as int) =~= filters@);
    Ok(trees)
}

/// The node for a backend that is used where those before it are not available.
fn create_route_backend_node(ctx: &mut TraceCtx<'_>, route_backend: &HttpRouteBackend) -> (result:
    Result<TraceTree, Stop>)
    ensures
        final(ctx).replies == old(ctx).replies,
        route_backend_run(*route_backend, old(ctx).replies@, old(ctx).at as int) == ended(
            result,
            final(ctx).at,
        ),
{
    let backend = match &route_backend.backend {
        Some(backend) => backend,
        None => return Err(Stop::Abort(Abort::Missing)),
    };
    let tree = match create_backend_node(ctx, backend) {
        Ok(tree) => tree,
        Err(stop) => return Err(stop),
    };
    if route_backend.filters.len() > 0 {
        return Err(Stop::Abort(Abort::Unsupported));
    }
    Ok(tree)
}

/// The node for a backend that is used for a share of the requests.
fn create_weighted_node(ctx: &mut TraceCtx<'_>, weighted: &WeightedHttpRouteBackend) -> (result:
    Result<TraceTree, Stop>)
    ensures
        final(ctx).replies == old(ctx).replies,
        weighted_run(*weighted, old(ctx).replies@, old(ctx).at as int) == ended(
            result,
            final(ctx).at,
        ),
{
    let route_backend = match &weighted.backend {
        Some(route_backend) => route_backend,
        None => return Err(Stop::Abort(Abort::Missing)),
    };
    let backend = match &route_backend.backend {
        Some(backend) => backend,
        None => return Err(Stop::Abort(Abort::Missing)),
    };
    let meta = match &backend.metadata {
        Some(meta) => meta,
        None => return Err(Stop::Abort(Abort::Missing)),
    };
    match metadata_node(ctx, meta) {
        Ok(_) => {},
        Err(stop) => return Err(stop),
    }
    match &backend.kind {
        None => Err(Stop::Abort(Abort::Missing)),
        Some(BackendKind::Forward) => Err(Stop::Abort(Abort::Unsupported)),
        Some(BackendKind::Balancer(balancer)) => {
            let path = match path_of_balancer(balancer) {
                Some(path) => path,
                None => return Err(Stop::Abort(Abort::Missing)),
            };
            if route_backend.filters.len() > 0 {
                return Err(Stop::Abort(Abort::Unsupported));
            }
            let mut tree = TraceNode::node(path.clone());
            let mut weight = String::new();
            append_decimal(&mut weight, weighted.weight as u64);
            assert(weight@ =~= decimal(weighted.weight as nat));
            tree.push(TraceNode::label("weight".to_owned(), weight));
            Ok(tree)
        },
    }
}

/// The nodes for backends of which the first that is available is used.
fn create_route_backend_nodes(
    ctx: &mut TraceCtx<'_>,
    backends: &Vec<HttpRouteBackend>,
) -> (result: Result<Vec<TraceTree>, Stop>)
    ensures
        final(ctx).replies == old(ctx).replies,
        run_all(backends@, route_backend_step(old(ctx).replies@), old(ctx).at as int)
            == ended_all(result, final(ctx).at),
{
    let ghost log = ctx.replies@;
    let ghost start = ctx.at as int;
    let ghost step = route_backend_step(log);
    let mut trees: Vec<TraceTree> = Vec::new();
    let mut i: usize = 0;
    assert(backends@.take(0) =~= Seq::<HttpRouteBackend>::empty());
    assert(views(trees@) =~= Seq::<TreeView>::empty());
    while i < backends.len()
        invariant
            i <= backends.len(),
            ctx.replies == old(ctx).replies,
            log == ctx.replies@,
            start == old(ctx).at,
            step == route_backend_step(log),
            run_all(backends@.take(i as int), step, start) == Run::Done(
                views(trees@),
                ctx.at as int,
            ),
        decreases backends.len() - i,
    {
        assert(backends@.take(i + 1).drop_last() =~= backends@.take(i as int));
        let ghost before = views(trees@);
        match create_route_backend_node(ctx, &backends[i]) {
            Ok(tree) => {
                trees.push(tree);
                assert(views(trees@) =~= before.push(tree@));
            },
            Err(stop) => {
                proof {
                    lemma_run_all_stop(backends@, i + 1, step, start);
                }
                return Err(stop);
            },
        }
        i += 1;
    }
    assert(backends@.take(i as int) =~= backends@);
    Ok(trees)
}

/// The nodes for backends that share the requests.
fn create_weighted_nodes(
    ctx: &mut TraceCtx<'_>,
    backends: &Vec<WeightedHttpRouteBackend>,
) -> (result: Result<Vec<TraceTree>, Stop>)
    ensures
        final(ctx).replies == old(ctx).replies,
        run_all(backends@, weighted_step(old(ctx).replies@), old(ctx).at as int)
            == ended_all(result, final(ctx).at),
{
    let ghost log = ctx.replies@;
    let ghost start = ctx.at as int;
    let ghost step = weighted_step(log);
    let mut trees: Vec<TraceTree> = Vec::new();
    let mut i: usize = 0;
    assert(backends@.take(0) =~= Seq::<WeightedHttpRouteBackend>::empty());
    assert(views(trees@) =~= Seq::<TreeView>::empty());
    while i < backends.len()
        invariant
            i <= backends.len(),
            ctx.replies == old(ctx).replies,
            log == ctx.replies@,
            start == old(ctx).at,
            step == weighted_step(log),
            run_all(backends@.take(i as int), step, start) == Run::Done(
                views(trees@),
                ctx.at as int,
            ),
        decreases backends.len() - i,
    {
        assert(backends@.take(i + 1).drop_last() =~= backends@.take(i as int));
        let ghost before = views(trees@);
        match create_weighted_node(ctx, &backends[i]) {
            Ok(tree) => {
                trees.push(tree);
                assert(views(trees@) =~= before.push(tree@));
            },
            Err(stop) => {
                proof {
                    lemma_run_all_stop(backends@, i + 1, step, start);
                }
                return Err(stop);
            },
        }
        i += 1;
    }
    assert(backends@.take(i as int) =~= backends@);
    Ok(trees)
}

/// The node for the backends of a rule.
fn create_distribution_node(ctx: &mut TraceCtx<'_>, distribution: &HttpDistribution) -> (result:
    Result<TraceTree, Stop>)
    ensures
        final(ctx).replies == old(ctx).replies,
        distribution_run(*distribution, old(ctx).replies@, old(ctx).at as int) == ended(
            result,
            final(ctx).at,
        ),
{
    match &distribution.kind {
        None => Err(Stop::Abort(Abort::Missing)),
        Some(HttpDistributionKind::Empty) => Ok(
            TraceNode::label("backends".to_owned(), "<empty>".to_owned()),
        ),
        Some(HttpDistributionKind::FirstAvailable(backends)) => {
            match create_route_backend_nodes(ctx, backends) {
                Ok(trees) => Ok(under("backends (first available)", trees)),
                Err(stop) => Err(stop),
            }
        },
        Some(HttpDistributionKind::RandomAvailable(backends)) => {
            match create_weighted_nodes(ctx, backends) {
                Ok(trees) => Ok(under("backends (random)", trees)),
                Err(stop) => Err(stop),
            }
        },
    }
}

/// The node for the rule that has number `i` in its route.
fn create_rule_node(ctx: &mut TraceCtx<'_>, i: usize, rule: &HttpRule) -> (result: Result<
    TraceTree,
    Stop,
>)
    ensures
        final(ctx).replies == old(ctx).replies,
        rule_run(i as int, *rule, old(ctx).replies@, old(ctx).at as int) == ended(
            result,
            final(ctx).at,
        ),
{
    let mut text = "<rule ".to_owned();
    append_decimal(&mut text, i as u64);
    text.append(">");
    let mut tree = TraceNode::node(text);
    match create_match_nodes(&rule.matches) {
        Ok(matches) => add_matches(&mut tree, matches),
        Err(stop) => return Err(stop),
    }
    match create_filter_nodes(&rule.filters) {
        Ok(filters) => tree.extend(filters),
        Err(stop) => return Err(stop),
    }
    let distribution = match &rule.backends {
        Some(distribution) => distribution,
        None => return Err(Stop::Abort(Abort::Unsupported)),
    };
    match create_distribution_node(ctx, distribution) {
        Ok(backends) => tree.push(backends),
        Err(stop) => return Err(stop),
    }
    Ok(tree)
}

/// The nodes for the rules of a route.
fn create_rule_nodes(ctx: &mut TraceCtx<'_>, rules: &Vec<HttpRule>) -> (result: Result<
    Vec<TraceTree>,
    Stop,
>)
    ensures
        final(ctx).replies == old(ctx).replies,
        run_all(rules@, rule_step(old(ctx).replies@), old(ctx).at as int)
            == ended_all(result, final(ctx).at),
{
    let ghost log = ctx.replies@;
    let ghost start = ctx.at as int;
    let ghost step = rule_step(log);
    let mut trees: Vec<TraceTree> = Vec::new();
    let mut i: usize = 0;
    assert(rules@.take(0) =~= Seq::<HttpRule>::empty());
    assert(views(trees@) =~= Seq::<TreeView>::empty());
    while i < rules.len()
        invariant
            i <= rules.len(),
            ctx.replies == old(ctx).replies,
            log == ctx.replies@,
            start == old(ctx).at,
            step == rule_step(log),
            run_all(rules@.take(i as int), step, start) == Run::Done(
                views(trees@),
                ctx.at as int,
            ),
        decreases rules.len() - i,
    {
        assert(rules@.take(i + 1).drop_last() =~= rules@.take(i as int));
        let ghost before = views(trees@);
        match create_rule_node(ctx, i, &rules[i]) {
            Ok(tree) => {
                trees.push(tree);
                assert(views(trees@) =~= before.push(tree@));
            },
            Err(stop) => {
                proof {
                    lemma_run_all_stop(rules@, i + 1, step, start);
                }
                return Err(stop);
            },
        }
        i += 1;
    }
    assert(rules@.take(i as int) =~= rules@);
    Ok(trees)
}

/// The node for a route.
fn create_route_node(ctx: &mut TraceCtx<'_>, route: &HttpRoute, protocol: &str) -> (result: Result<
    TraceTree,
    Stop,
>)
    ensures
        final(ctx).replies == old(ctx).replies,
        route_run(*route, protocol@, old(ctx).replies@, old(ctx).at as int) == ended(
            result,
            final(ctx).at,
        ),
{
    let meta = match &route.metadata {
        Some(meta) => meta,
        None => return Err(Stop::Abort(Abort::Missing)),
    };
    if meta.kind.is_none() {
        return Err(Stop::Abort(Abort::Missing));
    }
    let tree = node_from_meta(meta, protocol);
    match create_rule_nodes(ctx, &route.rules) {
        Ok(rules) => Ok(tree.with_leaves(rules)),
        Err(stop) => Err(stop),
    }
}

/// The nodes for routes of one protocol.
pub fn create_http_route_nodes(
    ctx: &mut TraceCtx<'_>,
    routes: &Vec<HttpRoute>,
    protocol: &str,
) -> (result: Result<Vec<TraceTree>, Stop>)
    ensures
        final(ctx).replies == old(ctx).replies,
        routes_run(routes@, protocol@, old(ctx).replies@, old(ctx).at as int)
            == ended_all(result, final(ctx).at),
{
    let ghost log = ctx.replies@;
    let ghost start = ctx.at as int;
    let ghost step = route_step(protocol@, log);
    let mut trees: Vec<TraceTree> = Vec::new();
    let mut i: usize = 0;
    assert(routes@.take(0) =~= Seq::<HttpRoute>::empty());
    assert(views(trees@) =~= Seq::<TreeView>::empty());
    while i < routes.len()
        invariant
            i <= routes.len(),
            ctx.replies == old(ctx).replies,
            log == ctx.replies@,
            start == old(ctx).at,
            step == route_step(protocol@, log),
            run_all(routes@.take(i as int), step, start) == Run::Done(
                views(trees@),
                ctx.at as int,
            ),
        decreases routes.len() - i,
    {
        assert(routes@.take(i + 1).drop_last() =~= routes@.take(i as int));
        let ghost before = views(trees@);
        match create_route_node(ctx, &routes[i], protocol) {
            Ok(tree) => {
                trees.push(tree);
                assert(views(trees@) =~= before.push(tree@));
            },
            Err(stop) => {
                proof {
                    lemma_run_all_stop(routes@, i + 1, step, start);
                }
                return Err(stop);
            },
        }
        i += 1;
    }
    assert(routes@.take(i as int) =~= routes@);
    Ok(trees)
}

/// The nodes for the HTTP/1 routes of a service.
pub fn create_http1_nodes(ctx: &mut TraceCtx<'_>, http1: &Http1) -> (result: Result<
    Vec<TraceTree>,
    Stop,
>)
    ensures
        final(ctx).replies == old(ctx).replies,
        routes_run(http1.routes@, "HTTP/1"@, old(ctx).replies@, old(ctx).at as int)
            == ended_all(result, final(ctx).at),
{
    create_http_route_nodes(ctx, &http1.routes, "HTTP/1")
}

/// The nodes for the HTTP/2 routes of a service.
pub fn create_http2_nodes(ctx: &mut TraceCtx<'_>, http2: &Http2) -> (result: Result<
    Vec<TraceTree>,
    Stop,
>)
    ensures
        final(ctx).replies == old(ctx).replies,
        routes_run(http2.routes@, "HTTP/2"@, old(ctx).replies@, old(ctx).at as int)
            == ended_all(result, final(ctx).at),
{
    create_http_route_nodes(ctx, &http2.routes, "HTTP/2")
}

/// A rule stands under its number, with its backends last.
pub proof fn law_rule_ends_in_backends(i: int, rule: HttpRule, log: Seq<Reply>, at: int)
    requires
        rule_run(i, rule, log, at) is Done,
    ensures
        rule_run(i, rule, log, at)->Done_0.root == NodeView::Node(
            "<rule "@ + decimal(i as nat) + ">"@,
        ),
        rule_run(i, rule, log, at)->Done_0.leaves.len() > 0,
        rule_run(i, rule, log, at)->Done_0.leaves.last().root == (
        match rule.backends->0.kind->0 {
            HttpDistributionKind::Empty => NodeView::Label("backends"@, "<empty>"@),
            HttpDistributionKind::FirstAvailable(_) => NodeView::Node(
                "backends (first available)"@,
            ),
            HttpDistributionKind::RandomAvailable(_) => NodeView::Node("backends (random)"@),
        }),
{
}

/// Every backend of a rule has a node, in order.
pub proof fn law_one_node_per_backend(distribution: HttpDistribution, log: Seq<Reply>, at: int)
    requires
        distribution_run(distribution, log, at) is Done,
    ensures
        distribution_run(distribution, log, at)->Done_0.leaves.len() == (
        match distribution.kind->0 {
            HttpDistributionKind::Empty => 0,
            HttpDistributionKind::FirstAvailable(backends) => backends@.len(),
            HttpDistributionKind::RandomAvailable(backends) => backends@.len(),
        }),
{
    match distribution.kind->0 {
        HttpDistributionKind::Empty => {},
        HttpDistributionKind::FirstAvailable(backends) => {
            lemma_run_all_done(backends@, route_backend_step(log), at);
        },
        HttpDistributionKind::RandomAvailable(backends) => {
            lemma_run_all_done(backends@, weighted_step(log), at);
        },
    }
}

/// Every route has a node under its heading, and every rule of it a node under its number, in
/// order.
pub proof fn law_one_node_per_route_and_rule(
    routes: Seq<HttpRoute>,
    protocol: Seq<char>,
    log: Seq<Reply>,
    at: int,
)
    requires
        routes_run(routes, protocol, log, at) is Done,
    ensures
        routes_run(routes, protocol, log, at)->Done_0.len() == routes.len(),
        forall|i: int|
            0 <= i < routes.len() ==> {
                let tree = #[trigger] routes_run(routes, protocol, log, at)->Done_0[i];
                &&& tree.root == NodeView::Node(
                    route_heading(routes[i].metadata->0.kind->0, protocol),
                )
                &&& tree.leaves.len() == routes[i].rules@.len()
                &&& forall|j: int|
                    0 <= j < tree.leaves.len() ==> (#[trigger] tree.leaves[j]).root
                        == NodeView::Node("<rule "@ + decimal(j as nat) + ">"@)
            },
{
    lemma_run_all_done(routes, route_step(protocol, log), at);
    let trees = routes_run(routes, protocol, log, at)->Done_0;
    assert forall|i: int| 0 <= i < routes.len() implies ({
        let tree = #[trigger] trees[i];
        &&& tree.root == NodeView::Node(route_heading(routes[i].metadata->0.kind->0, protocol))
        &&& tree.leaves.len() == routes[i].rules@.len()
        &&& forall|j: int|
            0 <= j < tree.leaves.len() ==> (#[trigger] tree.leaves[j]).root == NodeView::Node(
                "<rule "@ + decimal(j as nat) + ">"@,
            )
    }) by {
        let tree = trees[i];
        let step = route_step(protocol, log);
        assert(comes_to(step, i, routes[i], trees[i]));
        let from = choose|from: int| (#[trigger] step(i, routes[i], from)) is Done && step(
            i,
            routes[i],
            from,
        )->Done_0 == trees[i];
        let rules = routes[i].rules@;
        lemma_run_all_done(rules, rule_step(log), from);
        assert(tree.leaves == run_all(rules, rule_step(log), from)->Done_0);
        assert forall|j: int| 0 <= j < tree.leaves.len() implies (#[trigger] tree.leaves[j]).root
            == NodeView::Node("<rule "@ + decimal(j as nat) + ">"@) by {
            assert(comes_to(rule_step(log), j, rules[j], tree.leaves[j]));
        }
    }
}

/// The protocol shows in the headings of routes alone.
pub proof fn law_protocol_shows_in_headings_alone(
    routes: Seq<HttpRoute>,
    protocol: Seq<char>,
    other: Seq<char>,
    log: Seq<Reply>,
    at: int,
)
    ensures
        match (routes_run(routes, protocol, log, at), routes_run(routes, other, log, at)) {
            (Run::Done(trees, end), Run::Done(other_trees, other_end)) => {
                &&& end == other_end
                &&& trees.len() == other_trees.len()
                &&& forall|i: int|
                    0 <= i < trees.len() ==> (#[trigger] trees[i]).leaves == other_trees[i].leaves
            },
            (Run::Stop(stop), Run::Stop(other_stop)) => stop == other_stop,
            _ => false,
        },
    decreases routes.len(),
{
    if routes.len() > 0 {
        law_protocol_shows_in_headings_alone(routes.drop_last(), protocol, other, log, at);
    }
}

} // verus!
