//! What stands in the nodes for routes, and that nothing of a route is lost in them.
use crate::ctx::{
    law_items_are_taken_in_turn, law_run_stops_at_the_first_that_stops, run_all, AbortView, Reply,
    Run, StopView,
};
use crate::policy::{
    BackendKind, Filter, HeaderValue, HttpDistribution, HttpDistributionKind, HttpRoute,
    HttpRouteBackend, HttpRouteMatch, HttpRule, MetadataKind, MethodKind, OpaqueDistribution,
    OpaqueDistributionKind, OpaqueRoute, OpaqueRule, PathKind, QueryValue,
    WeightedHttpRouteBackend,
};
use crate::protocol::http::{
    all_match_trees, filter_trees, match_trees, method_name, rule_step, weighted_run,
};
use crate::protocol::{backend_run, balancer_path, http, metadata_run, opaque, route_heading};
use crate::text::decimal;
use crate::tree::{label, NodeView, TreeView};
use vstd::prelude::*;
use vstd::utf8::*;

verus! {

/// One where something is there, else none.
pub open spec fn one_if(there: bool) -> int {
    if there {
        1
    } else {
        0
    }
}

/// How many things a match asks for: headers, a method, a path and query parameters.
pub open spec fn asked(m: HttpRouteMatch) -> int {
    one_if(m.headers@.len() > 0) + one_if(m.method is Some) + one_if(m.path is Some) + one_if(
        m.query_params@.len() > 0,
    )
}

/// How many things matches ask for together.
pub open spec fn asked_by_all(matches: Seq<HttpRouteMatch>) -> int
    decreases matches.len(),
{
    if matches.len() == 0 {
        0
    } else {
        asked(matches[0]) + asked_by_all(matches.drop_first())
    }
}

/// The nine methods have the numbers from zero on, and each has a name of its own.
pub proof fn law_methods_have_names_of_their_own(a: i32, b: i32)
    ensures
        method_name(a) is Some <==> 0 <= a <= 8,
        method_name(a) is Some && method_name(a) == method_name(b) ==> a == b,
{
    reveal_strlit("GET");
    reveal_strlit("POST");
    reveal_strlit("PUT");
    reveal_strlit("DELETE");
    reveal_strlit("PATCH");
    reveal_strlit("OPTIONS");
    reveal_strlit("CONNECT");
    reveal_strlit("HEAD");
    reveal_strlit("TRACE");
    assert("GET"@[0] == 'G' && "POST"@[0] == 'P' && "PUT"@[0] == 'P' && "DELETE"@[0] == 'D');
    assert("PATCH"@[0] == 'P' && "OPTIONS"@[0] == 'O' && "CONNECT"@[0] == 'C');
    assert("HEAD"@[0] == 'H' && "TRACE"@[0] == 'T');
    assert("POST"@[1] == 'O' && "PUT"@[1] == 'U' && "PATCH"@[1] == 'A');
}

/// A match can be shown exactly where its method, if it asks for one, has a kind and a known
/// number, and its path, if it asks for one, has a kind. A number that is not known is named.
pub proof fn law_match_needs_known_method_and_path(m: HttpRouteMatch)
    ensures
        match_trees(m) is Ok <==> {
            &&& m.method matches Some(method) ==> method.kind is Some && (
            method.kind matches Some(MethodKind::Registered(code)) ==> method_name(code) is Some)
            &&& m.path matches Some(path) ==> path.kind is Some
        },
        match_trees(m) matches Err(stop) ==> stop == if m.method is Some
            && m.method->0.kind is Some && m.method->0.kind->0 is Registered && method_name(
            m.method->0.kind->0->Registered_0,
        ) is None {
            StopView::UnknownMethod(m.method->0.kind->0->Registered_0)
        } else {
            StopView::Abort(AbortView::Missing)
        },
{
}

/// Everything that a match asks for is shown, in the order headers, method, path and query
/// parameters: every header with its value, the method by its name, the path with how it is
/// compared, and every query parameter.
pub proof fn law_match_shows_all_that_it_asks_for(m: HttpRouteMatch)
    requires
        match_trees(m) is Ok,
    ensures
        ({
            let trees = match_trees(m)->Ok_0;
            let h = one_if(m.headers@.len() > 0);
            let k = h + one_if(m.method is Some);
            let p = k + one_if(m.path is Some);
            &&& trees.len() == asked(m)
            &&& m.headers@.len() > 0 ==> {
                &&& trees[0].root == NodeView::Node("headers (all)"@)
                &&& trees[0].leaves.len() == m.headers@.len()
                &&& forall|i: int|
                    #![trigger m.headers@[i]]
                    0 <= i < m.headers@.len() ==> {
                        let leaf = trees[0].leaves[i];
                        let name = m.headers@[i].name@;
                        &&& leaf.leaves.len() == 0
                        &&& match m.headers@[i].value {
                            None => leaf.root == NodeView::Label(name, "\"\""@),
                            Some(HeaderValue::Regex(regex)) => leaf.root == NodeView::Label(
                                name,
                                "Regex: "@ + regex@,
                            ),
                            Some(HeaderValue::Exact(bytes)) => leaf.root is Label
                                && leaf.root->Label_0 == name && (valid_utf8(bytes@)
                                ==> leaf.root->Label_1 == decode_utf8(bytes@)),
                        }
                    }
            }
            &&& m.method matches Some(method) ==> trees[h] == label(
                "method"@,
                match method.kind->0 {
                    MethodKind::Unregistered(name) => name@,
                    MethodKind::Registered(code) => method_name(code)->0,
                },
            )
            &&& m.path matches Some(path) ==> trees[k] == match path.kind->0 {
                PathKind::Exact(text) => label("exact path"@, text@),
                PathKind::Prefix(text) => label("path prefix"@, text@),
                PathKind::Regex(text) => label("path regex"@, text@),
            }
            &&& m.query_params@.len() > 0 ==> {
                &&& trees[p].root == NodeView::Node("query params (all)"@)
                &&& trees[p].leaves.len() == m.query_params@.len()
                &&& forall|i: int|
                    #![trigger m.query_params@[i]]
                    0 <= i < m.query_params@.len() ==> {
                        let leaf = trees[p].leaves[i];
                        let name = m.query_params@[i].name@;
                        &&& leaf.leaves.len() == 0
                        &&& leaf.root == match m.query_params@[i].value {
                            None => NodeView::Node(name),
                            Some(QueryValue::Exact(text)) => NodeView::Label(name, text@),
                            Some(QueryValue::Regex(regex)) => NodeView::Label(
                                name,
                                "regex: "@ + regex@,
                            ),
                        }
                    }
            }
        }),
{
}

/// What two lists of matches ask for is what the first asks for and then what the second asks for.
/// The first match that cannot be shown says why.
pub proof fn law_matches_are_shown_in_order(
    matches: Seq<HttpRouteMatch>,
    more: Seq<HttpRouteMatch>,
)
    ensures
        matches.len() == 0 ==> all_match_trees(matches) == Ok::<Seq<TreeView>, StopView>(
            Seq::empty(),
        ),
        matches.len() == 1 ==> all_match_trees(matches) == match_trees(matches[0]),
        all_match_trees(matches) is Err ==> all_match_trees(matches + more) == all_match_trees(
            matches,
        ),
        all_match_trees(matches) matches Ok(first) ==> match all_match_trees(more) {
            Ok(second) => all_match_trees(matches + more) == Ok::<Seq<TreeView>, StopView>(
                first + second,
            ),
            Err(stop) => all_match_trees(matches + more) == Err::<Seq<TreeView>, StopView>(stop),
        },
    decreases more.len(),
{
    reveal_with_fuel(all_match_trees, 2);
    if matches.len() == 1 {
        assert(matches.drop_last() =~= Seq::empty());
        if let Ok(trees) = match_trees(matches[0]) {
            assert(Seq::<TreeView>::empty() + trees =~= trees);
        }
    }
    if more.len() == 0 {
        assert(matches + more =~= matches);
        if let Ok(first) = all_match_trees(matches) {
            assert(first + Seq::<TreeView>::empty() =~= first);
        }
    } else {
        law_matches_are_shown_in_order(matches, more.drop_last());
        assert((matches + more).drop_last() =~= matches + more.drop_last());
        if let Ok(first) = all_match_trees(matches) {
            if let Ok(second) = all_match_trees(more.drop_last()) {
                if let Ok(last) = match_trees(more.last()) {
                    assert(first + second + last =~= first + (second + last));
                }
            }
        }
    }
}

/// Matches are shown with as many things as they ask for, and those of each match stand behind
/// those of the matches before it.
pub proof fn law_every_match_is_shown(matches: Seq<HttpRouteMatch>, n: int)
    requires
        all_match_trees(matches) is Ok,
        0 <= n < matches.len(),
    ensures
        all_match_trees(matches)->Ok_0.len() == asked_by_all(matches),
        match_trees(matches[n]) is Ok,
        ({
            let from = asked_by_all(matches.take(n));
            &&& 0 <= from <= from + asked(matches[n]) <= asked_by_all(matches)
            &&& all_match_trees(matches)->Ok_0.subrange(from, from + asked(matches[n]))
                == match_trees(matches[n])->Ok_0
        }),
{
    let before = matches.take(n);
    let own = matches.subrange(n, n + 1);
    let after = matches.skip(n + 1);
    assert(matches =~= before + (own + after));
    law_matches_are_shown_in_order(before, own + after);
    law_matches_are_shown_in_order(own, after);
    law_match_shows_all_that_it_asks_for(matches[n]);
    lemma_asked(before);
    lemma_asked(matches);
    let first = all_match_trees(before)->Ok_0;
    let mine = match_trees(matches[n])->Ok_0;
    let rest = all_match_trees(after)->Ok_0;
    assert(all_match_trees(matches)->Ok_0 == first + (mine + rest));
    let from = asked_by_all(before);
    assert(all_match_trees(matches)->Ok_0.subrange(from, from + asked(matches[n])) =~= mine);
}

proof fn lemma_asked(matches: Seq<HttpRouteMatch>)
    ensures
        all_match_trees(matches) is Ok ==> all_match_trees(matches)->Ok_0.len() == asked_by_all(
            matches,
        ),
    decreases matches.len(),
{
    if matches.len() > 0 {
        let own = matches.take(1);
        let rest = matches.drop_first();
        assert(matches =~= own + rest);
        law_matches_are_shown_in_order(own, rest);
        lemma_asked(rest);
        if match_trees(matches[0]) is Ok {
            law_match_shows_all_that_it_asks_for(matches[0]);
        }
    } else {
        law_matches_are_shown_in_order(matches, matches);
    }
}

/// Nothing that the matches of a rule ask for is lost. One thing stands first below the rule, with
/// a prefix; several stand first below it under one heading, all of them and in order.
pub proof fn law_rule_loses_no_match(i: int, rule: HttpRule, log: Seq<Reply>, at: int)
    requires
        http::rule_run(i, rule, log, at) is Done,
    ensures
        ({
            let leaves = http::rule_run(i, rule, log, at)->Done_0.leaves;
            let trees = all_match_trees(rule.matches@)->Ok_0;
            &&& all_match_trees(rule.matches@) is Ok
            &&& leaves.len() == one_if(asked_by_all(rule.matches@) > 0) + rule.filters@.len() + 1
            &&& asked_by_all(rule.matches@) == 1 ==> {
                &&& leaves[0].leaves == trees[0].leaves
                &&& match trees[0].root {
                    NodeView::Node(name) => leaves[0].root == NodeView::Node(
                        "matches"@ + " "@ + name,
                    ),
                    NodeView::Label(key, value) => leaves[0].root == NodeView::Label(
                        "matches"@ + " "@ + key,
                        value,
                    ),
                }
            }
            &&& asked_by_all(rule.matches@) >= 2 ==> {
                &&& leaves[0].root == NodeView::Node("matches (any)"@)
                &&& leaves[0].leaves.len() == asked_by_all(rule.matches@)
                &&& leaves[0].leaves == trees
            }
        }),
{
    lemma_asked(rule.matches@);
    lemma_filters(rule.filters@);
}

proof fn lemma_filters(filters: Seq<Filter>)
    ensures
        filter_trees(filters) is Ok <==> forall|j: int|
            0 <= j < filters.len() ==> (#[trigger] filters[j]).kind is Some
                && filters[j].kind->0 is FailureInjector,
        filter_trees(filters) matches Ok(trees) ==> trees.len() == filters.len() && forall|j: int|
            #![trigger filters[j]]
            0 <= j < filters.len() ==> {
                let injector = filters[j].kind->0->FailureInjector_0;
                trees[j] == label(
                    "failure injector"@,
                    injector.percent@ + "% of requests fail with code "@ + decimal(
                        injector.status as nat,
                    ) + " and status "@ + injector.message@,
                )
            },
    decreases filters.len(),
{
    if filters.len() > 0 {
        let before = filters.drop_last();
        lemma_filters(before);
        assert(filters[filters.len() - 1] == filters.last());
        assert(forall|j: int| 0 <= j < before.len() ==> #[trigger] before[j] == filters[j]);
        if filter_trees(before) is Err {
            let j = choose|j: int|
                0 <= j < before.len() && !((#[trigger] before[j]).kind is Some
                    && before[j].kind->0 is FailureInjector);
            assert(filters[j] == before[j]);
        }
        if let Ok(trees) = filter_trees(filters) {
            assert forall|j: int|
                0 <= j < filters.len() implies (#[trigger] filters[j]).kind is Some
                && filters[j].kind->0 is FailureInjector by {
                if j < before.len() {
                    assert(before[j] == filters[j]);
                }
            }
            assert forall|j: int|
                #![trigger filters[j]]
                0 <= j < filters.len() implies ({
                let injector = filters[j].kind->0->FailureInjector_0;
                trees[j] == label(
                    "failure injector"@,
                    injector.percent@ + "% of requests fail with code "@ + decimal(
                        injector.status as nat,
                    ) + " and status "@ + injector.message@,
                )
            }) by {
                if j < before.len() {
                    assert(before[j] == filters[j]);
                    assert(trees[j] == filter_trees(before)->Ok_0[j]);
                }
            }
        }
    }
}

/// A rule is shown exactly where its matches can be, all of its filters inject failures, and its
/// backends can be shown. Behind its matches every filter stands with its share, code and status,
/// in order, and then the backends.
pub proof fn law_rule_shows_filters_and_backends(i: int, rule: HttpRule, log: Seq<Reply>, at: int)
    ensures
        http::rule_run(i, rule, log, at) is Done <==> {
            &&& all_match_trees(rule.matches@) is Ok
            &&& forall|j: int|
                0 <= j < rule.filters@.len() ==> (#[trigger] rule.filters@[j]).kind is Some
                && rule.filters@[j].kind->0 is FailureInjector
            &&& rule.backends is Some
            &&& http::distribution_run(rule.backends->0, log, at) is Done
        },
        http::rule_run(i, rule, log, at) matches Run::Done(tree, end) ==> {
            let first = one_if(asked_by_all(rule.matches@) > 0);
            &&& tree.root == NodeView::Node("<rule "@ + decimal(i as nat) + ">"@)
            &&& forall|j: int|
                #![trigger rule.filters@[j]]
                0 <= j < rule.filters@.len() ==> {
                    let injector = rule.filters@[j].kind->0->FailureInjector_0;
                    tree.leaves[first + j] == label(
                        "failure injector"@,
                        injector.percent@ + "% of requests fail with code "@ + decimal(
                            injector.status as nat,
                        ) + " and status "@ + injector.message@,
                    )
                }
            &&& tree.leaves.last() == http::distribution_run(rule.backends->0, log, at)->Done_0
            &&& end == http::distribution_run(rule.backends->0, log, at)->Done_1
        },
{
    lemma_filters(rule.filters@);
    lemma_asked(rule.matches@);
}

/// A rule whose matches cannot be shown says why before its filters are looked at, and those
/// before its backends.
pub proof fn law_rule_stops_in_turn(i: int, rule: HttpRule, log: Seq<Reply>, at: int)
    ensures
        all_match_trees(rule.matches@) matches Err(stop) ==> http::rule_run(i, rule, log, at)
            == Run::<TreeView>::Stop(stop),
        all_match_trees(rule.matches@) is Ok ==> {
            &&& filter_trees(rule.filters@) matches Err(stop) ==> http::rule_run(i, rule, log, at)
                == Run::<TreeView>::Stop(stop)
            &&& filter_trees(rule.filters@) is Ok && rule.backends is None ==> http::rule_run(
                i,
                rule,
                log,
                at,
            ) == Run::<TreeView>::Stop(StopView::Abort(AbortView::Unsupported))
            &&& filter_trees(rule.filters@) is Ok && rule.backends is Some
                && http::distribution_run(rule.backends->0, log, at) is Stop ==> http::rule_run(
                i,
                rule,
                log,
                at,
            ) == http::distribution_run(rule.backends->0, log, at)
        },
{
}

/// A backend of an HTTP rule is shown as a backend is, and only where it has no filters.
pub proof fn law_http_backend_is_shown_as_a_backend(
    route_backend: HttpRouteBackend,
    log: Seq<Reply>,
    at: int,
)
    ensures
        http::route_backend_run(route_backend, log, at) is Done <==> {
            &&& route_backend.backend is Some
            &&& backend_run(route_backend.backend->0, log, at) is Done
            &&& route_backend.filters@.len() == 0
        },
        http::route_backend_run(route_backend, log, at) is Done ==> http::route_backend_run(
            route_backend,
            log,
            at,
        ) == backend_run(route_backend.backend->0, log, at),
        route_backend.backend is Some && backend_run(route_backend.backend->0, log, at) is Stop
            ==> http::route_backend_run(route_backend, log, at) == backend_run(
            route_backend.backend->0,
            log,
            at,
        ),
{
}

/// A backend with a weight is shown by its path, with its weight below, once what it came from has
/// been looked up.
pub proof fn law_weighted_backend_shows_path_and_weight(
    weighted: WeightedHttpRouteBackend,
    log: Seq<Reply>,
    at: int,
)
    ensures
        ({
            let backend = weighted.backend->0.backend->0;
            let head = metadata_run(backend.metadata->0, log, at);
            let path = balancer_path(backend.kind->0->Balancer_0);
            &&& weighted_run(weighted, log, at) is Done <==> {
                &&& weighted.backend is Some
                &&& weighted.backend->0.backend is Some
                &&& backend.metadata is Some
                &&& head is Done
                &&& backend.kind matches Some(BackendKind::Balancer(_))
                &&& path is Some
                &&& weighted.backend->0.filters@.len() == 0
            }
            &&& weighted_run(weighted, log, at) matches Run::Done(tree, end) ==> {
                &&& tree.root == NodeView::Node(path->0)
                &&& tree.leaves.len() == 1
                &&& tree.leaves[0] == label("weight"@, decimal(weighted.weight as nat))
                &&& end == head->Done_1
            }
            &&& weighted_run(weighted, log, at) matches Run::Stop(StopView::Ask(request))
                ==> head == Run::<TreeView>::Stop(StopView::Ask(request))
        }),
{
}

/// The backends of an HTTP rule stand under a heading that says how one is picked. Each is shown
/// from the reply on at which those before it ended.
pub proof fn law_http_backends_are_shown_in_turn(
    distribution: HttpDistribution,
    log: Seq<Reply>,
    at: int,
    n: int,
)
    requires
        http::distribution_run(distribution, log, at) is Done,
    ensures
        distribution.kind is Some,
        match distribution.kind->0 {
            HttpDistributionKind::Empty => http::distribution_run(distribution, log, at)
                == Run::Done(label("backends"@, "<empty>"@), at),
            HttpDistributionKind::FirstAvailable(backends) => {
                let tree = http::distribution_run(distribution, log, at)->Done_0;
                let step = http::route_backend_step(log);
                &&& tree.root == NodeView::Node("backends (first available)"@)
                &&& tree.leaves.len() == backends@.len()
                &&& 0 <= n < backends@.len() ==> http::route_backend_run(
                    backends@[n],
                    log,
                    run_all(backends@.take(n), step, at)->Done_1,
                ) == Run::Done(tree.leaves[n], run_all(backends@.take(n + 1), step, at)->Done_1)
            },
            HttpDistributionKind::RandomAvailable(backends) => {
                let tree = http::distribution_run(distribution, log, at)->Done_0;
                let step = http::weighted_step(log);
                &&& tree.root == NodeView::Node("backends (random)"@)
                &&& tree.leaves.len() == backends@.len()
                &&& 0 <= n < backends@.len() ==> weighted_run(
                    backends@[n],
                    log,
                    run_all(backends@.take(n), step, at)->Done_1,
                ) == Run::Done(tree.leaves[n], run_all(backends@.take(n + 1), step, at)->Done_1)
            },
        },
{
    http::law_one_node_per_backend(distribution, log, at);
    match distribution.kind->0 {
        HttpDistributionKind::Empty => {},
        HttpDistributionKind::FirstAvailable(backends) => {
            if 0 <= n < backends@.len() {
                law_items_are_taken_in_turn(backends@, http::route_backend_step(log), at, n);
            }
        },
        HttpDistributionKind::RandomAvailable(backends) => {
            if 0 <= n < backends@.len() {
                law_items_are_taken_in_turn(backends@, http::weighted_step(log), at, n);
            }
        },
    }
}

/// The heading of a route: a default route says its protocol and its name, and another one says
/// its group, kind and name, and its protocol.
pub proof fn law_heading_names_route_and_protocol(kind: MetadataKind, protocol: Seq<char>)
    ensures
        match kind {
            MetadataKind::Default(name) => route_heading(kind, protocol) == "<default "@ + protocol
                + " route \""@ + name@ + "\">"@,
            MetadataKind::Resource(r) => route_heading(kind, protocol) == r.group@ + "."@ + r.kind@
                + "/"@ + r.name@ + " ("@ + protocol + ")"@,
        },
{
}

/// HTTP routes are shown in turn, each from the reply on at which those before it ended. Below a
/// route its rules are shown in turn, each under its number.
pub proof fn law_http_routes_are_shown_in_turn(
    routes: Seq<HttpRoute>,
    protocol: Seq<char>,
    log: Seq<Reply>,
    at: int,
    n: int,
    k: int,
)
    requires
        http::routes_run(routes, protocol, log, at) is Done,
        0 <= n < routes.len(),
    ensures
        ({
            let trees = http::routes_run(routes, protocol, log, at)->Done_0;
            let before = http::routes_run(routes.take(n), protocol, log, at);
            let after = http::routes_run(routes.take(n + 1), protocol, log, at);
            let rules = routes[n].rules@;
            let from = before->Done_1;
            &&& trees.len() == routes.len()
            &&& before is Done
            &&& n == 0 ==> from == at
            &&& after is Done
            &&& http::route_run(routes[n], protocol, log, from) == Run::Done(
                trees[n],
                after->Done_1,
            )
            &&& trees[n].root == NodeView::Node(
                route_heading(routes[n].metadata->0.kind->0, protocol),
            )
            &&& trees[n].leaves.len() == rules.len()
            &&& 0 <= k < rules.len() ==> http::rule_run(
                k,
                rules[k],
                log,
                run_all(rules.take(k), rule_step(log), from)->Done_1,
            ) == Run::Done(
                trees[n].leaves[k],
                run_all(rules.take(k + 1), rule_step(log), from)->Done_1,
            )
        }),
{
    let step = http::route_step(protocol, log);
    law_items_are_taken_in_turn(routes, step, at, n);
    http::law_one_node_per_route_and_rule(routes, protocol, log, at);
    let from = http::routes_run(routes.take(n), protocol, log, at)->Done_1;
    let rules = routes[n].rules@;
    let trees = http::routes_run(routes, protocol, log, at)->Done_0;
    assert(trees[n].leaves == run_all(rules, rule_step(log), from)->Done_0);
    if 0 <= k < rules.len() {
        law_items_are_taken_in_turn(rules, rule_step(log), from, k);
    }
}

/// An HTTP route without metadata is missing it. Otherwise it stops where its rules do.
pub proof fn law_http_route_stops_with_its_rules(
    route: HttpRoute,
    protocol: Seq<char>,
    log: Seq<Reply>,
    at: int,
)
    ensures
        route.metadata is None || route.metadata->0.kind is None ==> http::route_run(
            route,
            protocol,
            log,
            at,
        ) == Run::<TreeView>::Stop(StopView::Abort(AbortView::Missing)),
        route.metadata is Some && route.metadata->0.kind is Some ==> {
            let rules = run_all(route.rules@, rule_step(log), at);
            &&& http::route_run(route, protocol, log, at) is Done <==> rules is Done
            &&& rules matches Run::Stop(stop) ==> http::route_run(route, protocol, log, at)
                == Run::<TreeView>::Stop(stop)
        },
{
}

/// HTTP routes stop at the first one that stops, as it does.
pub proof fn law_http_routes_stop_at_the_first_that_stops(
    routes: Seq<HttpRoute>,
    protocol: Seq<char>,
    log: Seq<Reply>,
    at: int,
)
    requires
        http::routes_run(routes, protocol, log, at) is Stop,
    ensures
        exists|n: int|
            #![trigger routes.take(n)]
            {
                &&& 0 <= n < routes.len()
                &&& http::routes_run(routes.take(n), protocol, log, at) is Done
                &&& http::route_run(
                    routes[n],
                    protocol,
                    log,
                    http::routes_run(routes.take(n), protocol, log, at)->Done_1,
                ) == Run::<TreeView>::Stop(http::routes_run(routes, protocol, log, at)->Stop_0)
            },
{
    let step = http::route_step(protocol, log);
    law_run_stops_at_the_first_that_stops(routes, step, at);
    let n = choose|n: int|
        #![trigger routes.take(n)]
        {
            &&& 0 <= n < routes.len()
            &&& run_all(routes.take(n), step, at) is Done
            &&& step(n, routes[n], run_all(routes.take(n), step, at)->Done_1)
                == Run::<TreeView>::Stop(run_all(routes, step, at)->Stop_0)
        };
    assert(http::routes_run(routes.take(n), protocol, log, at) is Done);
}

/// The backends of an opaque rule stand under a heading. Each is shown as a backend is, from the
/// reply on at which those before it ended.
pub proof fn law_opaque_backends_are_shown_in_turn(
    distribution: OpaqueDistribution,
    log: Seq<Reply>,
    at: int,
    n: int,
)
    requires
        opaque::distribution_run(distribution, log, at) is Done,
    ensures
        distribution.kind is Some,
        match distribution.kind->0 {
            OpaqueDistributionKind::Empty => opaque::distribution_run(distribution, log, at)
                == Run::Done(label("backends"@, "<empty>"@), at),
            OpaqueDistributionKind::FirstAvailable(backends) => {
                let tree = opaque::distribution_run(distribution, log, at)->Done_0;
                let step = opaque::route_backend_step(log);
                &&& tree.root == NodeView::Node("backends (first available)"@)
                &&& tree.leaves.len() == backends@.len()
                &&& 0 <= n < backends@.len() ==> backends@[n].backend is Some && backend_run(
                    backends@[n].backend->0,
                    log,
                    run_all(backends@.take(n), step, at)->Done_1,
                ) == Run::Done(tree.leaves[n], run_all(backends@.take(n + 1), step, at)->Done_1)
            },
            OpaqueDistributionKind::RandomAvailable(_) => false,
        },
{
    opaque::law_one_node_per_backend(distribution, log, at);
    if let OpaqueDistributionKind::FirstAvailable(backends) = distribution.kind->0 {
        if 0 <= n < backends@.len() {
            law_items_are_taken_in_turn(backends@, opaque::route_backend_step(log), at, n);
        }
    }
}

/// An opaque rule is shown exactly where its backends can be, and stands over them alone.
pub proof fn law_opaque_rule_shows_its_backends(
    i: int,
    rule: OpaqueRule,
    log: Seq<Reply>,
    at: int,
)
    ensures
        opaque::rule_run(i, rule, log, at) is Done <==> rule.backends is Some
            && opaque::distribution_run(rule.backends->0, log, at) is Done,
        opaque::rule_run(i, rule, log, at) matches Run::Done(tree, end) ==> {
            &&& tree.root == NodeView::Node("<rule "@ + decimal(i as nat) + ">"@)
            &&& tree.leaves.len() == 1
            &&& opaque::distribution_run(rule.backends->0, log, at) == Run::Done(
                tree.leaves[0],
                end,
            )
        },
        rule.backends is Some && opaque::distribution_run(rule.backends->0, log, at) is Stop
            ==> opaque::rule_run(i, rule, log, at) == opaque::distribution_run(
            rule.backends->0,
            log,
            at,
        ),
{
}

/// Opaque routes are shown in turn, each from the reply on at which those before it ended. Below a
/// route its rules are shown in turn, each under its number.
pub proof fn law_opaque_routes_are_shown_in_turn(
    routes: Seq<OpaqueRoute>,
    log: Seq<Reply>,
    at: int,
    n: int,
    k: int,
)
    requires
        opaque::routes_run(routes, log, at) is Done,
        0 <= n < routes.len(),
    ensures
        ({
            let trees = opaque::routes_run(routes, log, at)->Done_0;
            let before = opaque::routes_run(routes.take(n), log, at);
            let after = opaque::routes_run(routes.take(n + 1), log, at);
            let rules = routes[n].rules@;
            let step = opaque::rule_step(log);
            let from = before->Done_1;
            &&& trees.len() == routes.len()
            &&& before is Done
            &&& n == 0 ==> from == at
            &&& after is Done
            &&& opaque::route_run(routes[n], log, from) == Run::Done(trees[n], after->Done_1)
            &&& trees[n].root == NodeView::Node(
                route_heading(routes[n].metadata->0.kind->0, "opaque"@),
            )
            &&& trees[n].leaves.len() == rules.len()
            &&& 0 <= k < rules.len() ==> opaque::rule_run(
                k,
                rules[k],
                log,
                run_all(rules.take(k), step, from)->Done_1,
            ) == Run::Done(trees[n].leaves[k], run_all(rules.take(k + 1), step, from)->Done_1)
        }),
{
    law_items_are_taken_in_turn(routes, opaque::route_step(log), at, n);
    opaque::law_one_node_per_route_and_rule(routes, log, at);
    let from = opaque::routes_run(routes.take(n), log, at)->Done_1;
    let rules = routes[n].rules@;
    let trees = opaque::routes_run(routes, log, at)->Done_0;
    assert(trees[n].leaves == run_all(rules, opaque::rule_step(log), from)->Done_0);
    if 0 <= k < rules.len() {
        law_items_are_taken_in_turn(rules, opaque::rule_step(log), from, k);
    }
}

/// A backend with a weight says what it lacks in turn: what it came from is looked up before its
/// kind and its filters are looked at.
pub proof fn law_weighted_backend_stops_in_turn(
    weighted: WeightedHttpRouteBackend,
    log: Seq<Reply>,
    at: int,
)
    ensures
        ({
            let whole = weighted_run(weighted, log, at);
            let backend = weighted.backend->0.backend->0;
            let head = metadata_run(backend.metadata->0, log, at);
            let path = balancer_path(backend.kind->0->Balancer_0);
            let missing = Run::<TreeView>::Stop(StopView::Abort(AbortView::Missing));
            let unsupported = Run::<TreeView>::Stop(StopView::Abort(AbortView::Unsupported));
            if weighted.backend is None || weighted.backend->0.backend is None
                || backend.metadata is None {
                whole == missing
            } else if head is Stop {
                whole == head
            } else if backend.kind is None {
                whole == missing
            } else if backend.kind->0 is Forward {
                whole == unsupported
            } else if path is None {
                whole == missing
            } else if weighted.backend->0.filters@.len() > 0 {
                whole == unsupported
            } else {
                whole is Done
            }
        }),
{
}

/// The backends of an HTTP rule are missing where they have no kind. Otherwise they stop at the
/// first one that stops, as it does.
pub proof fn law_http_backends_stop_at_the_first_that_stops(
    distribution: HttpDistribution,
    log: Seq<Reply>,
    at: int,
)
    requires
        http::distribution_run(distribution, log, at) is Stop,
    ensures
        distribution.kind is None ==> http::distribution_run(distribution, log, at) == Run::<
            TreeView,
        >::Stop(StopView::Abort(AbortView::Missing)),
        distribution.kind matches Some(HttpDistributionKind::Empty) ==> false,
        distribution.kind matches Some(HttpDistributionKind::FirstAvailable(backends)) ==> exists|
            n: int,
        |
            #![trigger backends@.take(n)]
            {
                let before = run_all(backends@.take(n), http::route_backend_step(log), at);
                &&& 0 <= n < backends@.len()
                &&& before is Done
                &&& http::route_backend_run(backends@[n], log, before->Done_1)
                    == http::distribution_run(distribution, log, at)
            },
        distribution.kind matches Some(HttpDistributionKind::RandomAvailable(backends)) ==> exists|
            n: int,
        |
            #![trigger backends@.take(n)]
            {
                let before = run_all(backends@.take(n), http::weighted_step(log), at);
                &&& 0 <= n < backends@.len()
                &&& before is Done
                &&& weighted_run(backends@[n], log, before->Done_1) == http::distribution_run(
                    distribution,
                    log,
                    at,
                )
            },
{
    match distribution.kind {
        Some(HttpDistributionKind::FirstAvailable(backends)) => {
            law_run_stops_at_the_first_that_stops(backends@, http::route_backend_step(log), at);
        },
        Some(HttpDistributionKind::RandomAvailable(backends)) => {
            law_run_stops_at_the_first_that_stops(backends@, http::weighted_step(log), at);
        },
        _ => {},
    }
}

/// Opaque backends that are picked at random cannot be shown, and those without a kind are missing
/// it. Others stop at the first one that stops, as it does.
pub proof fn law_opaque_backends_stop_at_the_first_that_stops(
    distribution: OpaqueDistribution,
    log: Seq<Reply>,
    at: int,
)
    requires
        opaque::distribution_run(distribution, log, at) is Stop,
    ensures
        distribution.kind is None ==> opaque::distribution_run(distribution, log, at) == Run::<
            TreeView,
        >::Stop(StopView::Abort(AbortView::Missing)),
        distribution.kind matches Some(OpaqueDistributionKind::Empty) ==> false,
        distribution.kind matches Some(OpaqueDistributionKind::RandomAvailable(_))
            ==> opaque::distribution_run(distribution, log, at) == Run::<TreeView>::Stop(
            StopView::Abort(AbortView::Unsupported),
        ),
        distribution.kind matches Some(OpaqueDistributionKind::FirstAvailable(backends)) ==> exists|
            n: int,
        |
            #![trigger backends@.take(n)]
            {
                let before = run_all(backends@.take(n), opaque::route_backend_step(log), at);
                &&& 0 <= n < backends@.len()
                &&& before is Done
                &&& opaque::route_backend_run(backends@[n], log, before->Done_1)
                    == opaque::distribution_run(distribution, log, at)
            },
{
    if let Some(OpaqueDistributionKind::FirstAvailable(backends)) = distribution.kind {
        law_run_stops_at_the_first_that_stops(backends@, opaque::route_backend_step(log), at);
    }
}

/// An opaque route without metadata is missing it. Otherwise it stops where its rules do.
pub proof fn law_opaque_route_stops_with_its_rules(route: OpaqueRoute, log: Seq<Reply>, at: int)
    ensures
        route.metadata is None || route.metadata->0.kind is None ==> opaque::route_run(
            route,
            log,
            at,
        ) == Run::<TreeView>::Stop(StopView::Abort(AbortView::Missing)),
        route.metadata is Some && route.metadata->0.kind is Some ==> {
            let rules = run_all(route.rules@, opaque::rule_step(log), at);
            &&& opaque::route_run(route, log, at) is Done <==> rules is Done
            &&& rules matches Run::Stop(stop) ==> opaque::route_run(route, log, at) == Run::<
                TreeView,
            >::Stop(stop)
        },
{
}

/// Opaque routes stop at the first one that stops, as it does.
pub proof fn law_opaque_routes_stop_at_the_first_that_stops(
    routes: Seq<OpaqueRoute>,
    log: Seq<Reply>,
    at: int,
)
    requires
        opaque::routes_run(routes, log, at) is Stop,
    ensures
        exists|n: int|
            #![trigger routes.take(n)]
            {
                &&& 0 <= n < routes.len()
                &&& opaque::routes_run(routes.take(n), log, at) is Done
                &&& opaque::route_run(
                    routes[n],
                    log,
                    opaque::routes_run(routes.take(n), log, at)->Done_1,
                ) == Run::<TreeView>::Stop(opaque::routes_run(routes, log, at)->Stop_0)
            },
{
    let step = opaque::route_step(log);
    law_run_stops_at_the_first_that_stops(routes, step, at);
    let n = choose|n: int|
        #![trigger routes.take(n)]
        {
            &&& 0 <= n < routes.len()
            &&& run_all(routes.take(n), step, at) is Done
            &&& step(n, routes[n], run_all(routes.take(n), step, at)->Done_1)
                == Run::<TreeView>::Stop(run_all(routes, step, at)->Stop_0)
        };
    assert(opaque::routes_run(routes.take(n), log, at) is Done);
}

} // verus!
