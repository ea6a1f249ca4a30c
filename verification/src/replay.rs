//! That a trace can be run again on more replies.
//!
//! What a trace comes to depends on the replies that it reads and on no others, and while they
//! are too few it asks.
use crate::children::ChildrenView;
use crate::cluster::Endpoint;
use crate::ctx::{abort, fits, keeps, lemma_run_all_keeps, AbortView, Reply, Run, StopView};
use crate::policy::{
    Backend, Detect, Filter, HttpDistribution, HttpDistributionKind, HttpRoute, HttpRouteBackend,
    HttpRouteMatch, HttpRule, Metadata, OpaqueDistribution, OpaqueDistributionKind, OpaqueRoute,
    OpaqueRouteBackend, OpaqueRule, ProtocolKind, WeightedHttpRouteBackend,
};
use crate::protocol::{
    backend_run, children_run, endpoint_run, endpoints_run, http, metadata_run, opaque,
};
use crate::service::{
    detect_run, http1_part, http2_part, opaque_part, protocol_run, ServiceDescription,
};
use crate::tree::TreeView;
use vstd::prelude::*;

verus! {

proof fn lemma_metadata(meta: Metadata, log: Seq<Reply>, n: int, at: int)
    requires
        0 <= n <= log.len(),
    ensures
        keeps(metadata_run(meta, log.take(n), at), metadata_run(meta, log, at), at, log, n),
{
}

proof fn lemma_endpoint(
    children: ChildrenView,
    endpoint: Endpoint,
    log: Seq<Reply>,
    n: int,
    at: int,
)
    requires
        0 <= n <= log.len(),
    ensures
        keeps(
            endpoint_run(children, endpoint, log.take(n), at),
            endpoint_run(children, endpoint, log, at),
            at,
            log,
            n,
        ),
{
}

proof fn lemma_endpoints(endpoints: Seq<Endpoint>, log: Seq<Reply>, n: int, at: int)
    requires
        0 <= n <= log.len(),
    ensures
        keeps(
            endpoints_run(endpoints, log.take(n), at),
            endpoints_run(endpoints, log, at),
            at,
            log,
            n,
        ),
    decreases endpoints.len(),
{
    if endpoints.len() > 0 {
        let before = endpoints.drop_last();
        lemma_endpoints(before, log, n, at);
        if let Run::Done(children, at) = endpoints_run(before, log.take(n), at) {
            lemma_endpoint(children, endpoints.last(), log, n, at);
        }
        if let Run::Done(children, at) = endpoints_run(before, log, at) {
            lemma_endpoint(children, endpoints.last(), log, n, at);
        }
    }
}

proof fn lemma_children(path: Seq<char>, log: Seq<Reply>, n: int, at: int)
    requires
        0 <= n <= log.len(),
    ensures
        keeps(children_run(path, log.take(n), at), children_run(path, log, at), at, log, n),
{
    if let Run::Done(endpoints, at) = crate::ctx::ask_endpoints(log, at, path) {
        lemma_endpoints(endpoints, log, n, at);
    }
}

proof fn lemma_backend(backend: Backend, log: Seq<Reply>, n: int, at: int)
    requires
        0 <= n <= log.len(),
    ensures
        keeps(backend_run(backend, log.take(n), at), backend_run(backend, log, at), at, log, n),
{
    if let Some(meta) = backend.metadata {
        lemma_metadata(meta, log, n, at);
        assert forall|path: Seq<char>, at: int|
            #![trigger children_run(path, log, at)]
            keeps(children_run(path, log.take(n), at), children_run(path, log, at), at, log, n) by {
            lemma_children(path, log, n, at);
        }
    }
}

proof fn lemma_http_route_backend(
    route_backend: HttpRouteBackend,
    log: Seq<Reply>,
    n: int,
    at: int,
)
    requires
        0 <= n <= log.len(),
    ensures
        keeps(
            http::route_backend_run(route_backend, log.take(n), at),
            http::route_backend_run(route_backend, log, at),
            at,
            log,
            n,
        ),
{
    if let Some(backend) = route_backend.backend {
        lemma_backend(backend, log, n, at);
    }
}

proof fn lemma_weighted(weighted: WeightedHttpRouteBackend, log: Seq<Reply>, n: int, at: int)
    requires
        0 <= n <= log.len(),
    ensures
        keeps(
            http::weighted_run(weighted, log.take(n), at),
            http::weighted_run(weighted, log, at),
            at,
            log,
            n,
        ),
{
    if let Some(route_backend) = weighted.backend {
        if let Some(backend) = route_backend.backend {
            if let Some(meta) = backend.metadata {
                lemma_metadata(meta, log, n, at);
            }
        }
    }
}

proof fn lemma_http_distribution(
    distribution: HttpDistribution,
    log: Seq<Reply>,
    n: int,
    at: int,
)
    requires
        0 <= n <= log.len(),
    ensures
        keeps(
            http::distribution_run(distribution, log.take(n), at),
            http::distribution_run(distribution, log, at),
            at,
            log,
            n,
        ),
{
    match distribution.kind {
        Some(HttpDistributionKind::FirstAvailable(backends)) => {
            let short = http::route_backend_step(log.take(n));
            let long = http::route_backend_step(log);
            assert forall|i: int, at: int|
                #![trigger long(i, backends@[i], at)]
                keeps(short(i, backends@[i], at), long(i, backends@[i], at), at, log, n) by {
                lemma_http_route_backend(backends@[i], log, n, at);
            }
            lemma_run_all_keeps(backends@, short, long, at, log, n);
        },
        Some(HttpDistributionKind::RandomAvailable(backends)) => {
            let short = http::weighted_step(log.take(n));
            let long = http::weighted_step(log);
            assert forall|i: int, at: int|
                #![trigger long(i, backends@[i], at)]
                keeps(short(i, backends@[i], at), long(i, backends@[i], at), at, log, n) by {
                lemma_weighted(backends@[i], log, n, at);
            }
            lemma_run_all_keeps(backends@, short, long, at, log, n);
        },
        _ => {},
    }
}

proof fn lemma_matches(matches: Seq<HttpRouteMatch>)
    ensures
        http::all_match_trees(matches) != Err::<Seq<TreeView>, StopView>(
            StopView::Abort(AbortView::UnexpectedReply),
        ),
    decreases matches.len(),
{
    if matches.len() > 0 {
        lemma_matches(matches.drop_last());
    }
}

proof fn lemma_filters(filters: Seq<Filter>)
    ensures
        http::filter_trees(filters) != Err::<Seq<TreeView>, StopView>(
            StopView::Abort(AbortView::UnexpectedReply),
        ),
    decreases filters.len(),
{
    if filters.len() > 0 {
        lemma_filters(filters.drop_last());
    }
}

proof fn lemma_http_rule(i: int, rule: HttpRule, log: Seq<Reply>, n: int, at: int)
    requires
        0 <= n <= log.len(),
    ensures
        keeps(
            http::rule_run(i, rule, log.take(n), at),
            http::rule_run(i, rule, log, at),
            at,
            log,
            n,
        ),
{
    lemma_matches(rule.matches@);
    lemma_filters(rule.filters@);
    if let Some(distribution) = rule.backends {
        lemma_http_distribution(distribution, log, n, at);
    }
}

proof fn lemma_http_route(route: HttpRoute, protocol: Seq<char>, log: Seq<Reply>, n: int, at: int)
    requires
        0 <= n <= log.len(),
    ensures
        keeps(
            http::route_run(route, protocol, log.take(n), at),
            http::route_run(route, protocol, log, at),
            at,
            log,
            n,
        ),
{
    let short = http::rule_step(log.take(n));
    let long = http::rule_step(log);
    assert forall|i: int, at: int|
        #![trigger long(i, route.rules@[i], at)]
        keeps(short(i, route.rules@[i], at), long(i, route.rules@[i], at), at, log, n) by {
        lemma_http_rule(i, route.rules@[i], log, n, at);
    }
    lemma_run_all_keeps(route.rules@, short, long, at, log, n);
}

proof fn lemma_http_routes(
    routes: Seq<HttpRoute>,
    protocol: Seq<char>,
    log: Seq<Reply>,
    n: int,
    at: int,
)
    requires
        0 <= n <= log.len(),
    ensures
        keeps(
            http::routes_run(routes, protocol, log.take(n), at),
            http::routes_run(routes, protocol, log, at),
            at,
            log,
            n,
        ),
{
    let short = http::route_step(protocol, log.take(n));
    let long = http::route_step(protocol, log);
    assert forall|i: int, at: int|
        #![trigger long(i, routes[i], at)]
        keeps(short(i, routes[i], at), long(i, routes[i], at), at, log, n) by {
        lemma_http_route(routes[i], protocol, log, n, at);
    }
    lemma_run_all_keeps(routes, short, long, at, log, n);
}

proof fn lemma_opaque_route_backend(
    route_backend: OpaqueRouteBackend,
    log: Seq<Reply>,
    n: int,
    at: int,
)
    requires
        0 <= n <= log.len(),
    ensures
        keeps(
            opaque::route_backend_run(route_backend, log.take(n), at),
            opaque::route_backend_run(route_backend, log, at),
            at,
            log,
            n,
        ),
{
    if let Some(backend) = route_backend.backend {
        lemma_backend(backend, log, n, at);
    }
}

proof fn lemma_opaque_rule(i: int, rule: OpaqueRule, log: Seq<Reply>, n: int, at: int)
    requires
        0 <= n <= log.len(),
    ensures
        keeps(
            opaque::rule_run(i, rule, log.take(n), at),
            opaque::rule_run(i, rule, log, at),
            at,
            log,
            n,
        ),
{
    if let Some(OpaqueDistribution {
        kind: Some(OpaqueDistributionKind::FirstAvailable(backends)),
    }) = rule.backends {
        let short = opaque::route_backend_step(log.take(n));
        let long = opaque::route_backend_step(log);
        assert forall|i: int, at: int|
            #![trigger long(i, backends@[i], at)]
            keeps(short(i, backends@[i], at), long(i, backends@[i], at), at, log, n) by {
            lemma_opaque_route_backend(backends@[i], log, n, at);
        }
        lemma_run_all_keeps(backends@, short, long, at, log, n);
    }
}

proof fn lemma_opaque_route(route: OpaqueRoute, log: Seq<Reply>, n: int, at: int)
    requires
        0 <= n <= log.len(),
    ensures
        keeps(
            opaque::route_run(route, log.take(n), at),
            opaque::route_run(route, log, at),
            at,
            log,
            n,
        ),
{
    let short = opaque::rule_step(log.take(n));
    let long = opaque::rule_step(log);
    assert forall|i: int, at: int|
        #![trigger long(i, route.rules@[i], at)]
        keeps(short(i, route.rules@[i], at), long(i, route.rules@[i], at), at, log, n) by {
        lemma_opaque_rule(i, route.rules@[i], log, n, at);
    }
    lemma_run_all_keeps(route.rules@, short, long, at, log, n);
}

proof fn lemma_opaque_routes(routes: Seq<OpaqueRoute>, log: Seq<Reply>, n: int, at: int)
    requires
        0 <= n <= log.len(),
    ensures
        keeps(
            opaque::routes_run(routes, log.take(n), at),
            opaque::routes_run(routes, log, at),
            at,
            log,
            n,
        ),
{
    let short = opaque::route_step(log.take(n));
    let long = opaque::route_step(log);
    assert forall|i: int, at: int|
        #![trigger long(i, routes[i], at)]
        keeps(short(i, routes[i], at), long(i, routes[i], at), at, log, n) by {
        lemma_opaque_route(routes[i], log, n, at);
    }
    lemma_run_all_keeps(routes, short, long, at, log, n);
}

proof fn lemma_detect(detect: Detect, log: Seq<Reply>, n: int, at: int)
    requires
        0 <= n <= log.len(),
    ensures
        keeps(detect_run(detect, log.take(n), at), detect_run(detect, log, at), at, log, n),
{
    let short = log.take(n);
    assert forall|at: int|
        #![trigger opaque_part(detect.opaque, log, at)]
        keeps(
            opaque_part(detect.opaque, short, at),
            opaque_part(detect.opaque, log, at),
            at,
            log,
            n,
        ) by {
        if let Some(opaque) = detect.opaque {
            lemma_opaque_routes(opaque.routes@, log, n, at);
        }
    }
    assert forall|at: int|
        #![trigger http1_part(detect.http1, log, at)]
        keeps(
            http1_part(detect.http1, short, at),
            http1_part(detect.http1, log, at),
            at,
            log,
            n,
        ) by {
        if let Some(http1) = detect.http1 {
            lemma_http_routes(http1.routes@, "HTTP/1"@, log, n, at);
        }
    }
    assert forall|at: int|
        #![trigger http2_part(detect.http2, log, at)]
        keeps(
            http2_part(detect.http2, short, at),
            http2_part(detect.http2, log, at),
            at,
            log,
            n,
        ) by {
        if let Some(http2) = detect.http2 {
            lemma_http_routes(http2.routes@, "HTTP/2"@, log, n, at);
        }
    }
    assert(keeps(
        http1_part(detect.http1, short, at),
        http1_part(detect.http1, log, at),
        at,
        log,
        n,
    ));
}

proof fn lemma_protocol(kind: ProtocolKind, log: Seq<Reply>, n: int, at: int)
    requires
        0 <= n <= log.len(),
    ensures
        keeps(protocol_run(kind, log.take(n), at), protocol_run(kind, log, at), at, log, n),
{
    match kind {
        ProtocolKind::Detect(detect) => lemma_detect(detect, log, n, at),
        ProtocolKind::Opaque(opaque) => lemma_opaque_routes(opaque.routes@, log, n, at),
        ProtocolKind::Http1(http1) => lemma_http_routes(http1.routes@, "HTTP/1"@, log, n, at),
        ProtocolKind::Http2(http2) => lemma_http_routes(http2.routes@, "HTTP/2"@, log, n, at),
        _ => {},
    }
}

proof fn lemma_trace(service: ServiceDescription, log: Seq<Reply>, n: int)
    requires
        0 <= n <= log.len(),
    ensures
        keeps(service.trace(log.take(n), 0), service.trace(log, 0), 0, log, n),
{
    if let Some(protocol) = service.policy.protocol {
        if let Some(kind) = protocol.kind {
            lemma_protocol(kind, log, n, 0);
        }
    }
}

/// A trace that does not ask for a reply is the same however many replies are added.
pub proof fn law_more_replies_change_nothing(
    service: ServiceDescription,
    log: Seq<Reply>,
    more: Seq<Reply>,
)
    requires
        !(service.trace(log, 0) matches Run::Stop(StopView::Ask(_))),
    ensures
        service.trace(log + more, 0) == service.trace(log, 0),
{
    assert((log + more).take(log.len() as int) =~= log);
    lemma_trace(service, log + more, log.len() as int);
}

/// A reply of the kind that the trace asks for is taken: the trace does not find it unexpected.
pub proof fn law_fitting_reply_is_taken(service: ServiceDescription, log: Seq<Reply>, reply: Reply)
    requires
        service.trace(log, 0) matches Run::Stop(StopView::Ask(request)) && fits(request, reply),
    ensures
        service.trace(log.push(reply), 0) != abort::<TreeView>(AbortView::UnexpectedReply),
        service.trace(log.push(reply), 0) matches Run::Done(_, end) ==> end == log.len() + 1,
{
    let longer = log.push(reply);
    assert(longer.take(log.len() as int) =~= log);
    assert(longer.take(longer.len() as int) =~= longer);
    lemma_trace(service, longer, log.len() as int);
    lemma_trace(service, longer, longer.len() as int);
}

/// A trace that is finished has read some number of replies, and the replies after those have
/// no say in it.
pub proof fn law_unread_replies_have_no_say(
    service: ServiceDescription,
    log: Seq<Reply>,
    other: Seq<Reply>,
)
    requires
        service.trace(log, 0) is Done,
        service.trace(log, 0)->Done_1 <= other.len(),
        log.take(service.trace(log, 0)->Done_1) == other.take(service.trace(log, 0)->Done_1),
    ensures
        0 <= service.trace(log, 0)->Done_1 <= log.len(),
        service.trace(other, 0) == service.trace(log, 0),
{
    let end = service.trace(log, 0)->Done_1;
    assert(log.take(log.len() as int) =~= log);
    lemma_trace(service, log, log.len() as int);
    lemma_trace(service, log, end);
    lemma_trace(service, other, end);
}

/// A trace that can be finished on some replies asks on any fewer of them than it reads: adding
/// the replies one by one, as they are asked for, leads to its end.
pub proof fn law_too_few_replies_are_asked_for(
    service: ServiceDescription,
    log: Seq<Reply>,
    n: int,
)
    requires
        service.trace(log, 0) is Done,
        0 <= n < service.trace(log, 0)->Done_1,
    ensures
        n < log.len(),
        service.trace(log.take(n), 0) matches Run::Stop(StopView::Ask(_)),
{
    assert(log.take(log.len() as int) =~= log);
    lemma_trace(service, log, log.len() as int);
    lemma_trace(service, log, n);
}

} // verus!
