//! Policies that say nothing of their own: those that send to the same backends whatever the
//! protocol.
use crate::policy::{
    Detect, HttpDistributionKind, HttpRoute, HttpRouteBackend, HttpRule, OpaqueDistributionKind,
    OpaqueRoute, OpaqueRouteBackend, OpaqueRule, WeightedHttpRouteBackend,
    WeightedOpaqueRouteBackend,
};
use vstd::prelude::*;

verus! {

/// The identities of the backends that are there, in order.
pub open spec fn http_first_identities(backends: Seq<HttpRouteBackend>) -> Seq<u64>
    decreases backends.len(),
{
    if backends.len() == 0 {
        Seq::empty()
    } else {
        let before = http_first_identities(backends.drop_last());
        match backends.last().backend {
            Some(backend) => before.push(backend.identity),
            None => before,
        }
    }
}

/// The identities of the weighted backends that are there, in order.
pub open spec fn http_weighted_identities(backends: Seq<WeightedHttpRouteBackend>) -> Seq<u64>
    decreases backends.len(),
{
    if backends.len() == 0 {
        Seq::empty()
    } else {
        let before = http_weighted_identities(backends.drop_last());
        match backends.last().backend {
            Some(HttpRouteBackend { backend: Some(backend), .. }) => before.push(backend.identity),
            _ => before,
        }
    }
}

/// The identities of the backends of a rule.
pub open spec fn http_rule_identities(rule: HttpRule) -> Seq<u64> {
    match rule.backends {
        None => Seq::empty(),
        Some(distribution) => match distribution.kind {
            None => Seq::empty(),
            Some(HttpDistributionKind::Empty) => Seq::empty(),
            Some(HttpDistributionKind::FirstAvailable(backends)) => http_first_identities(
                backends@,
            ),
            Some(HttpDistributionKind::RandomAvailable(backends)) => http_weighted_identities(
                backends@,
            ),
        },
    }
}

/// The identities of the backends of rules, one rule after the other.
pub open spec fn http_rules_identities(rules: Seq<HttpRule>) -> Seq<u64>
    decreases rules.len(),
{
    if rules.len() == 0 {
        Seq::empty()
    } else {
        http_rules_identities(rules.drop_last()) + http_rule_identities(rules.last())
    }
}

/// The identities of the backends of HTTP routes, one route after the other.
pub open spec fn http_identities(routes: Seq<HttpRoute>) -> Seq<u64>
    decreases routes.len(),
{
    if routes.len() == 0 {
        Seq::empty()
    } else {
        http_identities(routes.drop_last()) + http_rules_identities(routes.last().rules@)
    }
}

fn push_http_first(identities: &mut Vec<u64>, backends: &Vec<HttpRouteBackend>)
    ensures
        final(identities)@ == old(identities)@ + http_first_identities(backends@),
{
    let mut i: usize = 0;
    assert(identities@ =~= old(identities)@ + http_first_identities(backends@.take(0)));
    while i < backends.len()
        invariant
            i <= backends.len(),
            identities@ == old(identities)@ + http_first_identities(backends@.take(i as int)),
        decreases backends.len() - i,
    {
        assert(backends@.take(i + 1).drop_last() =~= backends@.take(i as int));
        if let Some(backend) = &backends[i].backend {
            identities.push(backend.identity);
        }
        i += 1;
        assert(identities@ =~= old(identities)@ + http_first_identities(
            backends@.take(i as int),
        ));
    }
    assert(backends@.take(i as int) =~= backends@);
}

fn push_http_weighted(identities: &mut Vec<u64>, backends: &Vec<WeightedHttpRouteBackend>)
    ensures
        final(identities)@ == old(identities)@ + http_weighted_identities(backends@),
{
    let mut i: usize = 0;
    assert(identities@ =~= old(identities)@ + http_weighted_identities(backends@.take(0)));
    while i < backends.len()
        invariant
            i <= backends.len(),
            identities@ == old(identities)@ + http_weighted_identities(backends@.take(i as int)),
        decreases backends.len() - i,
    {
        assert(backends@.take(i + 1).drop_last() =~= backends@.take(i as int));
        if let Some(route_backend) = &backends[i].backend {
            if let Some(backend) = &route_backend.backend {
                identities.push(backend.identity);
            }
        }
        i += 1;
        assert(identities@ =~= old(identities)@ + http_weighted_identities(
            backends@.take(i as int),
        ));
    }
    assert(backends@.take(i as int) =~= backends@);
}

fn push_http_rule(identities: &mut Vec<u64>, rule: &HttpRule)
    ensures
        final(identities)@ == old(identities)@ + http_rule_identities(*rule),
{
    if let Some(distribution) = &rule.backends {
        match &distribution.kind {
            None => {},
            Some(HttpDistributionKind::Empty) => {},
            Some(HttpDistributionKind::FirstAvailable(backends)) => {
                push_http_first(identities, backends);
            },
            Some(HttpDistributionKind::RandomAvailable(backends)) => {
                push_http_weighted(identities, backends);
            },
        }
    }
    assert(identities@ =~= old(identities)@ + http_rule_identities(*rule));
}

fn push_http_rules(identities: &mut Vec<u64>, rules: &Vec<HttpRule>)
    ensures
        final(identities)@ == old(identities)@ + http_rules_identities(rules@),
{
    let mut i: usize = 0;
    assert(identities@ =~= old(identities)@ + http_rules_identities(rules@.take(0)));
    while i < rules.len()
        invariant
            i <= rules.len(),
            identities@ == old(identities)@ + http_rules_identities(rules@.take(i as int)),
        decreases rules.len() - i,
    {
        assert(rules@.take(i + 1).drop_last() =~= rules@.take(i as int));
        push_http_rule(identities, &rules[i]);
        i += 1;
        assert(identities@ =~= old(identities)@ + http_rules_identities(rules@.take(i as int)));
    }
    assert(rules@.take(i as int) =~= rules@);
}

fn identities_of_http(routes: &Vec<HttpRoute>) -> (identities: Vec<u64>)
    ensures
        identities@ == http_identities(routes@),
{
    let mut identities: Vec<u64> = Vec::new();
    let mut i: usize = 0;
    assert(identities@ =~= http_identities(routes@.take(0)));
    while i < routes.len()
        invariant
            i <= routes.len(),
            identities@ == http_identities(routes@.take(i as int)),
        decreases routes.len() - i,
    {
        assert(routes@.take(i + 1).drop_last() =~= routes@.take(i as int));
        push_http_rules(&mut identities, &routes[i].rules);
        i += 1;
    }
    assert(routes@.take(i as int) =~= routes@);
    identities
}

/// The identities of the backends that are there, in order.
pub open spec fn opaque_first_identities(backends: Seq<OpaqueRouteBackend>) -> Seq<u64>
    decreases backends.len(),
{
    if backends.len() == 0 {
        Seq::empty()
    } else {
        let before = opaque_first_identities(backends.drop_last());
        match backends.last().backend {
            Some(backend) => before.push(backend.identity),
            None => before,
        }
    }
}

/// The identities of the weighted backends that are there, in order.
pub open spec fn opaque_weighted_identities(backends: Seq<WeightedOpaqueRouteBackend>) -> Seq<u64>
    decreases backends.len(),
{
    if backends.len() == 0 {
        Seq::empty()
    } else {
        let before = opaque_weighted_identities(backends.drop_last());
        match backends.last().backend {
            Some(OpaqueRouteBackend { backend: Some(backend) }) => before.push(backend.identity),
            _ => before,
        }
    }
}

/// The identities of the backends of a rule.
pub open spec fn opaque_rule_identities(rule: OpaqueRule) -> Seq<u64> {
    match rule.backends {
        None => Seq::empty(),
        Some(distribution) => match distribution.kind {
            None => Seq::empty(),
            Some(OpaqueDistributionKind::Empty) => Seq::empty(),
            Some(OpaqueDistributionKind::FirstAvailable(backends)) => opaque_first_identities(
                backends@,
            ),
            Some(OpaqueDistributionKind::RandomAvailable(backends)) => opaque_weighted_identities(
                backends@,
            ),
        },
    }
}

/// The identities of the backends of rules, one rule after the other.
pub open spec fn opaque_rules_identities(rules: Seq<OpaqueRule>) -> Seq<u64>
    decreases rules.len(),
{
    if rules.len() == 0 {
        Seq::empty()
    } else {
        opaque_rules_identities(rules.drop_last()) + opaque_rule_identities(rules.last())
    }
}

/// The identities of the backends of opaque routes, one route after the other.
pub open spec fn opaque_identities(routes: Seq<OpaqueRoute>) -> Seq<u64>
    decreases routes.len(),
{
    if routes.len() == 0 {
        Seq::empty()
    } else {
        opaque_identities(routes.drop_last()) + opaque_rules_identities(routes.last().rules@)
    }
}

fn push_opaque_first(identities: &mut Vec<u64>, backends: &Vec<OpaqueRouteBackend>)
    ensures
        final(identities)@ == old(identities)@ + opaque_first_identities(backends@),
{
    let mut i: usize = 0;
    assert(identities@ =~= old(identities)@ + opaque_first_identities(backends@.take(0)));
    while i < backends.len()
        invariant
            i <= backends.len(),
            identities@ == old(identities)@ + opaque_first_identities(backends@.take(i as int)),
        decreases backends.len() - i,
    {
        assert(backends@.take(i + 1).drop_last() =~= backends@.take(i as int));
        if let Some(backend) = &backends[i].backend {
            identities.push(backend.identity);
        }
        i += 1;
        assert(identities@ =~= old(identities)@ + opaque_first_identities(
            backends@.take(i as int),
        ));
    }
    assert(backends@.take(i as int) =~= backends@);
}

fn push_opaque_weighted(identities: &mut Vec<u64>, backends: &Vec<WeightedOpaqueRouteBackend>)
    ensures
        final(identities)@ == old(identities)@ + opaque_weighted_identities(backends@),
{
    let mut i: usize = 0;
    assert(identities@ =~= old(identities)@ + opaque_weighted_identities(backends@.take(0)));
    while i < backends.len()
        invariant
            i <= backends.len(),
            identities@ == old(identities)@ + opaque_weighted_identities(backends@.take(i as int)),
        decreases backends.len() - i,
    {
        assert(backends@.take(i + 1).drop_last() =~= backends@.take(i as int));
        if let Some(route_backend) = &backends[i].backend {
            if let Some(backend) = &route_backend.backend {
                identities.push(backend.identity);
            }
        }
        i += 1;
        assert(identities@ =~= old(identities)@ + opaque_weighted_identities(
            backends@.take(i as int),
        ));
    }
    assert(backends@.take(i as int) =~= backends@);
}

fn push_opaque_rule(identities: &mut Vec<u64>, rule: &OpaqueRule)
    ensures
        final(identities)@ == old(identities)@ + opaque_rule_identities(*rule),
{
    if let Some(distribution) = &rule.backends {
        match &distribution.kind {
            None => {},
            Some(OpaqueDistributionKind::Empty) => {},
            Some(OpaqueDistributionKind::FirstAvailable(backends)) => {
                push_opaque_first(identities, backends);
            },
            Some(OpaqueDistributionKind::RandomAvailable(backends)) => {
                push_opaque_weighted(identities, backends);
            },
        }
    }
    assert(identities@ =~= old(identities)@ + opaque_rule_identities(*rule));
}

fn push_opaque_rules(identities: &mut Vec<u64>, rules: &Vec<OpaqueRule>)
    ensures
        final(identities)@ == old(identities)@ + opaque_rules_identities(rules@),
{
    let mut i: usize = 0;
    assert(identities@ =~= old(identities)@ + opaque_rules_identities(rules@.take(0)));
    while i < rules.len()
        invariant
            i <= rules.len(),
            identities@ == old(identities)@ + opaque_rules_identities(rules@.take(i as int)),
        decreases rules.len() - i,
    {
        assert(rules@.take(i + 1).drop_last() =~= rules@.take(i as int));
        push_opaque_rule(identities, &rules[i]);
        i += 1;
        assert(identities@ =~= old(identities)@ + opaque_rules_identities(rules@.take(i as int)));
    }
    assert(rules@.take(i as int) =~= rules@);
}

fn identities_of_opaque(routes: &Vec<OpaqueRoute>) -> (identities: Vec<u64>)
    ensures
        identities@ == opaque_identities(routes@),
{
    let mut identities: Vec<u64> = Vec::new();
    let mut i: usize = 0;
    assert(identities@ =~= opaque_identities(routes@.take(0)));
    while i < routes.len()
        invariant
            i <= routes.len(),
            identities@ == opaque_identities(routes@.take(i as int)),
        decreases routes.len() - i,
    {
        assert(routes@.take(i + 1).drop_last() =~= routes@.take(i as int));
        push_opaque_rules(&mut identities, &routes[i].rules);
        i += 1;
    }
    assert(routes@.take(i as int) =~= routes@);
    identities
}

fn same_identities(a: &Vec<u64>, b: &Vec<u64>) -> (r: bool)
    ensures
        r == (a@ == b@),
{
    if a.len() != b.len() {
        return false;
    }
    let mut i: usize = 0;
    while i < a.len()
        invariant
            i <= a.len(),
            a.len() == b.len(),
            a@.take(i as int) == b@.take(i as int),
        decreases a.len() - i,
    {
        if a[i] != b[i] {
            return false;
        }
        i += 1;
        assert(a@.take(i as int) =~= b@.take(i as int));
    }
    assert(a@.take(i as int) =~= a@);
    assert(b@.take(i as int) =~= b@);
    true
}

/// Whether the policy is the default one, without routes of its own: all three protocols send to
/// the same backends.
pub open spec fn is_default(detect: Detect) -> bool {
    match (detect.opaque, detect.http1, detect.http2) {
        (Some(opaque), Some(http1), Some(http2)) => {
            &&& opaque_identities(opaque.routes@) == http_identities(http1.routes@)
            &&& http_identities(http1.routes@) == http_identities(http2.routes@)
        },
        _ => false,
    }
}

/// Whether the policy is the default one.
pub fn check_default(detect: &Detect) -> (r: bool)
    ensures
        r == is_default(*detect),
{
    match (&detect.opaque, &detect.http1, &detect.http2) {
        (Some(opaque), Some(http1), Some(http2)) => {
            let opaque_dist = identities_of_opaque(&opaque.routes);
            let http1_dist = identities_of_http(&http1.routes);
            let http2_dist = identities_of_http(&http2.routes);
            same_identities(&opaque_dist, &http1_dist) && same_identities(&http1_dist, &http2_dist)
        },
        _ => false,
    }
}

/// The backends of an HTTP rule count in order, those that are absent excepted.
pub proof fn law_http_rule_counts_every_backend(rule: HttpRule)
    ensures
        rule.backends is None || rule.backends->0.kind is None || rule.backends->0.kind->0 is Empty
            ==> http_rule_identities(rule).len() == 0,
        rule.backends matches Some(distribution) ==> distribution.kind matches Some(
            HttpDistributionKind::FirstAvailable(backends),
        ) ==> http_rule_identities(rule) == backends@.filter(
            |b: HttpRouteBackend| b.backend is Some,
        ).map_values(|b: HttpRouteBackend| b.backend->0.identity),
        rule.backends matches Some(distribution) ==> distribution.kind matches Some(
            HttpDistributionKind::RandomAvailable(backends),
        ) ==> http_rule_identities(rule) == backends@.filter(
            |b: WeightedHttpRouteBackend| b.backend is Some && b.backend->0.backend is Some,
        ).map_values(|b: WeightedHttpRouteBackend| b.backend->0.backend->0.identity),
{
    if let Some(distribution) = rule.backends {
        match distribution.kind {
            Some(HttpDistributionKind::FirstAvailable(backends)) => {
                lemma_http_first(backends@);
            },
            Some(HttpDistributionKind::RandomAvailable(backends)) => {
                lemma_http_weighted(backends@);
            },
            _ => {},
        }
    }
}

proof fn lemma_http_first(backends: Seq<HttpRouteBackend>)
    ensures
        http_first_identities(backends) == backends.filter(
            |b: HttpRouteBackend| b.backend is Some,
        ).map_values(|b: HttpRouteBackend| b.backend->0.identity),
    decreases backends.len(),
{
    reveal(Seq::filter);
    let there = |b: HttpRouteBackend| b.backend is Some;
    let identity = |b: HttpRouteBackend| b.backend->0.identity;
    if backends.len() > 0 {
        lemma_http_first(backends.drop_last());
    }
    assert(http_first_identities(backends) =~= backends.filter(there).map_values(identity));
}

proof fn lemma_http_weighted(backends: Seq<WeightedHttpRouteBackend>)
    ensures
        http_weighted_identities(backends) == backends.filter(
            |b: WeightedHttpRouteBackend| b.backend is Some && b.backend->0.backend is Some,
        ).map_values(|b: WeightedHttpRouteBackend| b.backend->0.backend->0.identity),
    decreases backends.len(),
{
    reveal(Seq::filter);
    let there = |b: WeightedHttpRouteBackend| b.backend is Some && b.backend->0.backend is Some;
    let identity = |b: WeightedHttpRouteBackend| b.backend->0.backend->0.identity;
    if backends.len() > 0 {
        lemma_http_weighted(backends.drop_last());
    }
    assert(http_weighted_identities(backends) =~= backends.filter(there).map_values(identity));
}

proof fn lemma_http_rules(rules: Seq<HttpRule>)
    ensures
        http_rules_identities(rules) == rules.map_values(
            |rule: HttpRule| http_rule_identities(rule),
        ).flatten(),
    decreases rules.len(),
{
    let each = |rule: HttpRule| http_rule_identities(rule);
    if rules.len() > 0 {
        lemma_http_rules(rules.drop_last());
        let before = rules.drop_last().map_values(each);
        before.lemma_flatten_push(each(rules.last()));
        assert(rules.map_values(each) =~= before.push(each(rules.last())));
    }
}

/// The backends of HTTP routes are those of all rules of all routes, one after the other.
pub proof fn law_http_routes_count_every_rule(routes: Seq<HttpRoute>)
    ensures
        http_identities(routes) == routes.map_values(
            |route: HttpRoute|
                route.rules@.map_values(|rule: HttpRule| http_rule_identities(rule)).flatten(),
        ).flatten(),
    decreases routes.len(),
{
    let each = |route: HttpRoute|
        route.rules@.map_values(|rule: HttpRule| http_rule_identities(rule)).flatten();
    if routes.len() > 0 {
        law_http_routes_count_every_rule(routes.drop_last());
        lemma_http_rules(routes.last().rules@);
        let before = routes.drop_last().map_values(each);
        before.lemma_flatten_push(each(routes.last()));
        assert(routes.map_values(each) =~= before.push(each(routes.last())));
    }
}

/// The backends of an opaque rule count in order, those that are absent excepted.
pub proof fn law_opaque_rule_counts_every_backend(rule: OpaqueRule)
    ensures
        rule.backends is None || rule.backends->0.kind is None || rule.backends->0.kind->0 is Empty
            ==> opaque_rule_identities(rule).len() == 0,
        rule.backends matches Some(distribution) ==> distribution.kind matches Some(
            OpaqueDistributionKind::FirstAvailable(backends),
        ) ==> opaque_rule_identities(rule) == backends@.filter(
            |b: OpaqueRouteBackend| b.backend is Some,
        ).map_values(|b: OpaqueRouteBackend| b.backend->0.identity),
        rule.backends matches Some(distribution) ==> distribution.kind matches Some(
            OpaqueDistributionKind::RandomAvailable(backends),
        ) ==> opaque_rule_identities(rule) == backends@.filter(
            |b: WeightedOpaqueRouteBackend| b.backend is Some && b.backend->0.backend is Some,
        ).map_values(|b: WeightedOpaqueRouteBackend| b.backend->0.backend->0.identity),
{
    if let Some(distribution) = rule.backends {
        match distribution.kind {
            Some(OpaqueDistributionKind::FirstAvailable(backends)) => {
                lemma_opaque_first(backends@);
            },
            Some(OpaqueDistributionKind::RandomAvailable(backends)) => {
                lemma_opaque_weighted(backends@);
            },
            _ => {},
        }
    }
}

proof fn lemma_opaque_first(backends: Seq<OpaqueRouteBackend>)
    ensures
        opaque_first_identities(backends) == backends.filter(
            |b: OpaqueRouteBackend| b.backend is Some,
        ).map_values(|b: OpaqueRouteBackend| b.backend->0.identity),
    decreases backends.len(),
{
    reveal(Seq::filter);
    let there = |b: OpaqueRouteBackend| b.backend is Some;
    let identity = |b: OpaqueRouteBackend| b.backend->0.identity;
    if backends.len() > 0 {
        lemma_opaque_first(backends.drop_last());
    }
    assert(opaque_first_identities(backends) =~= backends.filter(there).map_values(identity));
}

proof fn lemma_opaque_weighted(backends: Seq<WeightedOpaqueRouteBackend>)
    ensures
        opaque_weighted_identities(backends) == backends.filter(
            |b: WeightedOpaqueRouteBackend| b.backend is Some && b.backend->0.backend is Some,
        ).map_values(|b: WeightedOpaqueRouteBackend| b.backend->0.backend->0.identity),
    decreases backends.len(),
{
    reveal(Seq::filter);
    let there = |b: WeightedOpaqueRouteBackend| b.backend is Some && b.backend->0.backend is Some;
    let identity = |b: WeightedOpaqueRouteBackend| b.backend->0.backend->0.identity;
    if backends.len() > 0 {
        lemma_opaque_weighted(backends.drop_last());
    }
    assert(opaque_weighted_identities(backends) =~= backends.filter(there).map_values(identity));
}

proof fn lemma_opaque_rules(rules: Seq<OpaqueRule>)
    ensures
        opaque_rules_identities(rules) == rules.map_values(
            |rule: OpaqueRule| opaque_rule_identities(rule),
        ).flatten(),
    decreases rules.len(),
{
    let each = |rule: OpaqueRule| opaque_rule_identities(rule);
    if rules.len() > 0 {
        lemma_opaque_rules(rules.drop_last());
        let before = rules.drop_last().map_values(each);
        before.lemma_flatten_push(each(rules.last()));
        assert(rules.map_values(each) =~= before.push(each(rules.last())));
    }
}

/// The backends of opaque routes are those of all rules of all routes, one after the other.
pub proof fn law_opaque_routes_count_every_rule(routes: Seq<OpaqueRoute>)
    ensures
        opaque_identities(routes) == routes.map_values(
            |route: OpaqueRoute|
                route.rules@.map_values(|rule: OpaqueRule| opaque_rule_identities(rule)).flatten(),
        ).flatten(),
    decreases routes.len(),
{
    let each = |route: OpaqueRoute|
        route.rules@.map_values(|rule: OpaqueRule| opaque_rule_identities(rule)).flatten();
    if routes.len() > 0 {
        law_opaque_routes_count_every_rule(routes.drop_last());
        lemma_opaque_rules(routes.last().rules@);
        let before = routes.drop_last().map_values(each);
        before.lemma_flatten_push(each(routes.last()));
        assert(routes.map_values(each) =~= before.push(each(routes.last())));
    }
}

/// The default policy has routes for all three protocols, and they send to the same backends, as
/// many and in the same order.
pub proof fn law_default_policy_sends_alike(detect: Detect)
    ensures
        is_default(detect) <==> {
            let opaque = opaque_identities(detect.opaque->0.routes@);
            let http1 = http_identities(detect.http1->0.routes@);
            let http2 = http_identities(detect.http2->0.routes@);
            &&& detect.opaque is Some
            &&& detect.http1 is Some
            &&& detect.http2 is Some
            &&& opaque.len() == http1.len()
            &&& http1.len() == http2.len()
            &&& forall|i: int|
                0 <= i < http1.len() ==> opaque[i] == (#[trigger] http1[i]) && http1[i] == http2[i]
        },
{
    let opaque = opaque_identities(detect.opaque->0.routes@);
    let http1 = http_identities(detect.http1->0.routes@);
    let http2 = http_identities(detect.http2->0.routes@);
    if detect.opaque is Some && detect.http1 is Some && detect.http2 is Some && opaque.len()
        == http1.len() && http1.len() == http2.len() && (forall|i: int|
        0 <= i < http1.len() ==> opaque[i] == (#[trigger] http1[i]) && http1[i] == http2[i]) {
        assert(opaque =~= http1);
        assert(http1 =~= http2);
    }
}

} // verus!
