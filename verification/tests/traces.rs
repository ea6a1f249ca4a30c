use linkerd_trace::address::{IpAddr, SocketAddr};
use linkerd_trace::cluster::{
    ContainerStatus, DaemonSet, Deployment, Endpoint, ObjectMeta, OwnerReference, Pod, PodStatus,
    ReplicaSet, ReplicaSetStatus, Service, ServiceSpec, StatefulSet,
};
use linkerd_trace::ctx::{Abort, Reply, Request, Stop, TraceCtx};
use linkerd_trace::defaults::check_default;
use linkerd_trace::policy::{
    injected_ratio, Backend, BackendKind, Balancer, Detect, Discovery, EndpointDiscovery,
    FailureInjector, Filter, FilterKind, HeaderMatch, HeaderValue, Http1, Http2, HttpDistribution,
    HttpDistributionKind, HttpMethod, HttpRoute, HttpRouteBackend, HttpRouteMatch, HttpRule,
    Metadata, MetadataKind, MethodKind, Opaque, OpaqueDistribution, OpaqueDistributionKind,
    OpaqueRoute, OpaqueRouteBackend, OpaqueRule, OutboundPolicy, PathKind, PathMatch, ProtocolKind,
    ProxyProtocol, QueryParamMatch, QueryValue, Ratio, Resource, WeightedHttpRouteBackend,
    WeightedOpaqueRouteBackend,
};
use linkerd_trace::protocol::http::{create_http1_nodes, create_http2_nodes};
use linkerd_trace::protocol::opaque::create_opaque_nodes;
use linkerd_trace::protocol::{
    check_owner, create_backend_node, get_owner_reference, get_service_children, metadata_node,
    node_from_meta,
};
use linkerd_trace::service::ServiceDescription;
use linkerd_trace::tree::TraceTree;

fn s(text: &str) -> String {
    text.to_string()
}

fn meta(name: &str, owners: &[(&str, &str)]) -> ObjectMeta {
    ObjectMeta {
        name: Some(s(name)),
        namespace: Some(s("emojivoto")),
        owner_references: Some(
            owners
                .iter()
                .map(|(kind, name)| OwnerReference { kind: s(kind), name: s(name) })
                .collect(),
        ),
    }
}

fn service(cluster_ip: Option<&str>) -> Service {
    Service {
        metadata: meta("web-svc", &[]),
        spec: Some(ServiceSpec { cluster_ip: cluster_ip.map(s) }),
    }
}

fn pod(name: &str, owner: (&str, &str), containers: &[(&str, bool)]) -> Pod {
    Pod {
        metadata: meta(name, &[owner]),
        status: Some(PodStatus {
            container_statuses: Some(
                containers
                    .iter()
                    .map(|(name, ready)| ContainerStatus { name: s(name), ready: *ready })
                    .collect(),
            ),
        }),
    }
}

fn replicaset(name: &str, owner: (&str, &str), available: Option<i32>) -> ReplicaSet {
    ReplicaSet {
        metadata: meta(name, &[owner]),
        status: Some(ReplicaSetStatus { replicas: 2, available_replicas: available }),
    }
}

fn deployment(name: &str) -> Deployment {
    Deployment { metadata: meta(name, &[]) }
}

fn endpoint(last: u32, pod: &str) -> Endpoint {
    Endpoint {
        addr: SocketAddr { ip: IpAddr::V4(0x0a00_0000 + last), port: 80 },
        text: format!("10.0.0.{}:80", last),
        metric_labels: vec![(s("namespace"), s("emojivoto")), (s("pod"), s(pod))],
    }
}

fn resource(group: &str, kind: &str, name: &str) -> Metadata {
    Metadata {
        kind: Some(MetadataKind::Resource(Resource {
            group: s(group),
            kind: s(kind),
            name: s(name),
            namespace: s("emojivoto"),
            section: s("http"),
            port: 80,
        })),
    }
}

fn default_meta(name: &str) -> Metadata {
    Metadata { kind: Some(MetadataKind::Default(s(name))) }
}

fn backend_of(identity: u64, metadata: Option<Metadata>, kind: Option<BackendKind>) -> Backend {
    Backend { identity, metadata, kind }
}

fn balancer(path: &str) -> BackendKind {
    BackendKind::Balancer(Balancer {
        discovery: Some(EndpointDiscovery { kind: Some(Discovery::Dst(s(path))) }),
    })
}

const PATH: &str = "web-svc.emojivoto.svc.cluster.local:80";

fn backend(identity: u64) -> Backend {
    backend_of(identity, Some(resource("core", "Service", "web-svc")), Some(balancer(PATH)))
}

/// A backend that is shown without a reply but for its endpoints.
fn plain_backend(identity: u64) -> Backend {
    backend_of(identity, Some(resource("policy", "EgressNetwork", "out")), Some(balancer(PATH)))
}

fn http_backend(backend: Backend) -> HttpRouteBackend {
    HttpRouteBackend { backend: Some(backend), filters: Vec::new() }
}

fn first(backends: Vec<Backend>) -> Option<HttpDistribution> {
    Some(HttpDistribution {
        kind: Some(HttpDistributionKind::FirstAvailable(
            backends.into_iter().map(http_backend).collect(),
        )),
    })
}

fn random(backends: Vec<(Backend, u32)>) -> Option<HttpDistribution> {
    Some(HttpDistribution {
        kind: Some(HttpDistributionKind::RandomAvailable(
            backends
                .into_iter()
                .map(|(backend, weight)| WeightedHttpRouteBackend {
                    backend: Some(http_backend(backend)),
                    weight,
                })
                .collect(),
        )),
    })
}

fn empty() -> Option<HttpDistribution> {
    Some(HttpDistribution { kind: Some(HttpDistributionKind::Empty) })
}

fn rule(backends: Option<HttpDistribution>) -> HttpRule {
    HttpRule { matches: Vec::new(), filters: Vec::new(), backends }
}

fn matching(matches: Vec<HttpRouteMatch>) -> HttpRule {
    HttpRule { matches, filters: Vec::new(), backends: empty() }
}

fn any_request() -> HttpRouteMatch {
    HttpRouteMatch { headers: Vec::new(), method: None, path: None, query_params: Vec::new() }
}

fn method(kind: Option<MethodKind>) -> HttpRouteMatch {
    HttpRouteMatch { method: Some(HttpMethod { kind }), ..any_request() }
}

fn path(kind: Option<PathKind>) -> HttpRouteMatch {
    HttpRouteMatch { path: Some(PathMatch { kind }), ..any_request() }
}

fn headers(headers: Vec<(&str, Option<HeaderValue>)>) -> HttpRouteMatch {
    HttpRouteMatch {
        headers: headers
            .into_iter()
            .map(|(name, value)| HeaderMatch { name: s(name), value })
            .collect(),
        ..any_request()
    }
}

fn http1(rules: Vec<HttpRule>) -> Http1 {
    Http1 { routes: vec![HttpRoute { metadata: Some(default_meta("http")), rules }] }
}

fn http2(rules: Vec<HttpRule>) -> Http2 {
    Http2 { routes: vec![HttpRoute { metadata: Some(default_meta("http")), rules }] }
}

fn opaque_first(backends: Vec<Backend>) -> Option<OpaqueDistribution> {
    Some(OpaqueDistribution {
        kind: Some(OpaqueDistributionKind::FirstAvailable(
            backends
                .into_iter()
                .map(|backend| OpaqueRouteBackend { backend: Some(backend) })
                .collect(),
        )),
    })
}

fn opaque_random(backends: Vec<Backend>) -> Option<OpaqueDistribution> {
    Some(OpaqueDistribution {
        kind: Some(OpaqueDistributionKind::RandomAvailable(
            backends
                .into_iter()
                .map(|backend| WeightedOpaqueRouteBackend {
                    backend: Some(OpaqueRouteBackend { backend: Some(backend) }),
                    weight: 1,
                })
                .collect(),
        )),
    })
}

fn opaque(backends: Option<OpaqueDistribution>) -> Opaque {
    Opaque {
        routes: vec![OpaqueRoute {
            metadata: Some(default_meta("opaque")),
            rules: vec![OpaqueRule { backends }],
        }],
    }
}

fn described(kind: Option<ProtocolKind>) -> ServiceDescription {
    ServiceDescription {
        svc: service(None),
        policy: OutboundPolicy { protocol: Some(ProxyProtocol { kind }) },
    }
}

fn trace(kind: ProtocolKind, replies: Vec<Reply>) -> Result<String, Stop> {
    let mut ctx = TraceCtx::new(&replies);
    described(Some(kind)).display(&mut ctx).map(|tree| tree.render())
}

fn http1_trace(rules: Vec<HttpRule>, replies: Vec<Reply>) -> Result<String, Stop> {
    trace(ProtocolKind::Http1(http1(rules)), replies)
}

fn shown(trees: &[TraceTree]) -> String {
    trees.iter().map(|tree| tree.render()).collect()
}

fn web_replies() -> Vec<Reply> {
    vec![
        Reply::Service(service(Some("10.43.0.7"))),
        Reply::Endpoints(vec![endpoint(1, "web-1")]),
        Reply::Pod(pod("web-1", ("ReplicaSet", "web-rs"), &[("app", true), ("proxy", true)])),
        Reply::ReplicaSet(replicaset("web-rs", ("Deployment", "web"), Some(1))),
        Reply::Deployment(deployment("web")),
    ]
}

const WEB_BACKEND: &str = "\
svc web-svc.emojivoto:80:
├── endpoint: 10.43.0.7:80
├── FQDN: web-svc.emojivoto.svc.cluster.local:80
└── deployment web:
    └── replicaset web-rs (1/2 replicas available):
        └── pod web-1 (2/2 containers ready):
            ├── ready containers: app, proxy
            └── endpoint: 10.0.0.1:80
";

fn default_detect(identities: [u64; 3]) -> Detect {
    Detect {
        opaque: Some(opaque(opaque_first(vec![backend(identities[0])]))),
        http1: Some(http1(vec![rule(first(vec![backend(identities[1])]))])),
        http2: Some(http2(vec![rule(first(vec![backend(identities[2])]))])),
    }
}

#[test]
fn default_policy_is_shown_by_its_http1_routes() {
    let text = trace(ProtocolKind::Detect(default_detect([4, 4, 4])), web_replies()).unwrap();
    assert_eq!(
        text,
        "\
trace for service web-svc.emojivoto:
├── protocol: detect (opaque, HTTP/1, HTTP/2)
└── <default HTTP/1 route \"http\">:
    └── <rule 0>:
        └── backends (first available):
            └── svc web-svc.emojivoto:80:
                ├── endpoint: 10.43.0.7:80
                ├── FQDN: web-svc.emojivoto.svc.cluster.local:80
                └── deployment web:
                    └── replicaset web-rs (1/2 replicas available):
                        └── pod web-1 (2/2 containers ready):
                            ├── ready containers: app, proxy
                            └── endpoint: 10.0.0.1:80
"
    );
}

#[test]
fn other_policies_are_shown_protocol_by_protocol() {
    let detect = Detect {
        opaque: Some(opaque(Some(OpaqueDistribution { kind: Some(OpaqueDistributionKind::Empty) }))),
        http1: Some(http1(vec![rule(empty())])),
        http2: Some(http2(vec![rule(random(vec![]))])),
    };
    // All three lists of backends are empty, so this is the default policy.
    assert!(check_default(&detect));
    let detect = Detect { http2: None, ..detect };
    assert!(!check_default(&detect));
    let text = trace(ProtocolKind::Detect(detect), vec![]).unwrap();
    assert_eq!(
        text,
        "\
trace for service web-svc.emojivoto:
├── protocol: detect
├── <default opaque route \"opaque\">:
│   └── <rule 0>:
│       └── backends: <empty>
└── <default HTTP/1 route \"http\">:
    └── <rule 0>:
        └── backends: <empty>
"
    );
}

#[test]
fn default_policy_needs_the_same_backends_everywhere() {
    assert!(check_default(&default_detect([1, 1, 1])));
    assert!(!check_default(&default_detect([2, 1, 1])));
    assert!(!check_default(&default_detect([1, 2, 1])));
    assert!(!check_default(&default_detect([1, 1, 2])));
    assert!(!check_default(&Detect { opaque: None, ..default_detect([1, 1, 1]) }));
    assert!(!check_default(&Detect { http1: None, ..default_detect([1, 1, 1]) }));
    assert!(!check_default(&Detect { http2: None, ..default_detect([1, 1, 1]) }));
}

#[test]
fn backends_are_compared_in_order_and_across_distributions() {
    let detect = |one: Vec<u64>, two: Vec<u64>, three: Vec<(u64, u32)>| Detect {
        opaque: Some(opaque(opaque_random(one.into_iter().map(backend).collect()))),
        http1: Some(http1(vec![rule(first(two.into_iter().map(backend).collect()))])),
        http2: Some(http2(vec![rule(random(
            three.into_iter().map(|(identity, weight)| (backend(identity), weight)).collect(),
        ))])),
    };
    assert!(check_default(&detect(vec![1, 2], vec![1, 2], vec![(1, 10), (2, 5)])));
    assert!(!check_default(&detect(vec![2, 1], vec![1, 2], vec![(1, 10), (2, 5)])));
    assert!(!check_default(&detect(vec![1], vec![1, 2], vec![(1, 10), (2, 5)])));
}

#[test]
fn absent_backends_are_passed_over_in_comparison() {
    let gap = || HttpRouteBackend { backend: None, filters: Vec::new() };
    let mut detect = default_detect([1, 1, 1]);
    detect.http1 = Some(http1(vec![
        rule(None),
        rule(Some(HttpDistribution { kind: None })),
        rule(Some(HttpDistribution {
            kind: Some(HttpDistributionKind::FirstAvailable(vec![gap(), http_backend(backend(1))])),
        })),
        rule(Some(HttpDistribution {
            kind: Some(HttpDistributionKind::RandomAvailable(vec![
                WeightedHttpRouteBackend { backend: None, weight: 1 },
                WeightedHttpRouteBackend { backend: Some(gap()), weight: 1 },
            ])),
        })),
    ]));
    assert!(check_default(&detect));
}

#[test]
fn protocols_of_one_kind_are_shown_without_a_label() {
    let text = trace(ProtocolKind::Http2(http2(vec![rule(empty())])), vec![]).unwrap();
    assert_eq!(
        text,
        "\
trace for service web-svc.emojivoto:
└── <default HTTP/2 route \"http\">:
    └── <rule 0>:
        └── backends: <empty>
"
    );
    let text = trace(ProtocolKind::Opaque(Opaque { routes: vec![] }), vec![]).unwrap();
    assert_eq!(text, "trace for service web-svc.emojivoto:\n");
}

#[test]
fn unknown_protocols_are_not_shown() {
    assert!(matches!(trace(ProtocolKind::Grpc, vec![]), Err(Stop::Abort(Abort::Unsupported))));
    assert!(matches!(trace(ProtocolKind::Tls, vec![]), Err(Stop::Abort(Abort::Unsupported))));
}

#[test]
fn services_without_name_or_policy_are_not_shown() {
    let replies = vec![];
    let missing = |description: ServiceDescription| {
        matches!(
            description.display(&mut TraceCtx::new(&replies)),
            Err(Stop::Abort(Abort::Missing))
        )
    };
    assert!(missing(described(None)));
    let mut nameless = described(Some(ProtocolKind::Grpc));
    nameless.svc.metadata.name = None;
    assert!(missing(nameless));
    let mut homeless = described(Some(ProtocolKind::Grpc));
    homeless.svc.metadata.namespace = None;
    assert!(missing(homeless));
    let mut lawless = described(None);
    lawless.policy.protocol = None;
    assert!(missing(lawless));
}

#[test]
fn replies_are_asked_for_one_by_one() {
    let mut left = web_replies().into_iter();
    let mut replies = Vec::new();
    let mut asked = Vec::new();
    let text = loop {
        let description = described(Some(ProtocolKind::Detect(default_detect([4, 4, 4]))));
        match description.display(&mut TraceCtx::new(&replies)) {
            Ok(tree) => break tree.render(),
            Err(Stop::Ask(request)) => {
                asked.push(format!("{:?}", request));
                replies.push(left.next().unwrap());
            }
            Err(stop) => panic!("{:?}", stop),
        }
    };
    assert_eq!(
        asked,
        vec![
            "Service { namespace: \"emojivoto\", name: \"web-svc\" }",
            "Endpoints { path: \"web-svc.emojivoto.svc.cluster.local:80\" }",
            "Pod { namespace: \"emojivoto\", name: \"web-1\" }",
            "ReplicaSet { namespace: \"emojivoto\", name: \"web-rs\" }",
            "Deployment { namespace: \"emojivoto\", name: \"web\" }",
        ]
    );
    assert_eq!(
        text,
        trace(ProtocolKind::Detect(default_detect([4, 4, 4])), web_replies()).unwrap()
    );
}

#[test]
fn more_replies_change_nothing() {
    let mut replies = web_replies();
    replies.push(Reply::Deployment(deployment("other")));
    assert_eq!(
        trace(ProtocolKind::Detect(default_detect([4, 4, 4])), replies).unwrap(),
        trace(ProtocolKind::Detect(default_detect([4, 4, 4])), web_replies()).unwrap()
    );
    let mut ctx_replies = web_replies();
    ctx_replies.push(Reply::Deployment(deployment("other")));
    let mut ctx = TraceCtx::new(&ctx_replies);
    described(Some(ProtocolKind::Detect(default_detect([4, 4, 4])))).display(&mut ctx).unwrap();
    assert_eq!(ctx.at, 5);
}

#[test]
fn replies_of_another_kind_are_unexpected() {
    let expected = [
        Reply::Pod(pod("web-1", ("ReplicaSet", "web-rs"), &[])),
        Reply::Service(service(None)),
        Reply::Service(service(None)),
        Reply::Service(service(None)),
        Reply::Service(service(None)),
    ];
    for (i, wrong) in expected.into_iter().enumerate() {
        let mut replies: Vec<Reply> = web_replies().into_iter().take(i).collect();
        replies.push(wrong);
        assert!(matches!(
            http1_trace(vec![rule(first(vec![backend(1)]))], replies),
            Err(Stop::Abort(Abort::UnexpectedReply))
        ));
    }
}

#[test]
fn every_rule_has_its_number() {
    let text = http1_trace((0..11).map(|_| rule(empty())).collect(), vec![]).unwrap();
    let rules: Vec<&str> = text.lines().filter(|line| line.contains("<rule")).collect();
    assert_eq!(rules.len(), 11);
    assert_eq!(rules[0], "    ├── <rule 0>:");
    assert_eq!(rules[10], "    └── <rule 10>:");
}

#[test]
fn protocol_shows_in_the_heading_alone() {
    let replies = vec![];
    let one = create_http1_nodes(&mut TraceCtx::new(&replies), &http1(vec![rule(empty())])).unwrap();
    let two = create_http2_nodes(&mut TraceCtx::new(&replies), &http2(vec![rule(empty())])).unwrap();
    assert_eq!(one[0].root.line(), "<default HTTP/1 route \"http\">:");
    assert_eq!(two[0].root.line(), "<default HTTP/2 route \"http\">:");
    assert_eq!(shown(&one[0].leaves), shown(&two[0].leaves));
}

#[test]
fn routes_of_resources_are_headed_by_them() {
    let meta = resource("gateway.networking.k8s.io", "HTTPRoute", "web-route");
    assert_eq!(
        node_from_meta(&meta, "HTTP/1").root.line(),
        "gateway.networking.k8s.io.HTTPRoute/web-route (HTTP/1):"
    );
    assert_eq!(
        node_from_meta(&default_meta("tcp"), "opaque").root.line(),
        "<default opaque route \"tcp\">:"
    );
}

#[test]
fn routes_without_metadata_are_not_shown() {
    let replies = vec![];
    for metadata in [None, Some(Metadata { kind: None })] {
        let http = Http1 { routes: vec![HttpRoute { metadata, rules: vec![] }] };
        assert!(matches!(
            create_http1_nodes(&mut TraceCtx::new(&replies), &http),
            Err(Stop::Abort(Abort::Missing))
        ));
    }
    for metadata in [None, Some(Metadata { kind: None })] {
        let opaq = Opaque { routes: vec![OpaqueRoute { metadata, rules: vec![] }] };
        assert!(matches!(
            create_opaque_nodes(&mut TraceCtx::new(&replies), &opaq),
            Err(Stop::Abort(Abort::Missing))
        ));
    }
}

fn rule_lines(rule: HttpRule) -> String {
    let replies = vec![];
    let nodes = create_http1_nodes(&mut TraceCtx::new(&replies), &http1(vec![rule])).unwrap();
    shown(&nodes[0].leaves)
}

#[test]
fn one_match_is_shown_under_its_own_heading() {
    assert_eq!(
        rule_lines(matching(vec![path(Some(PathKind::Prefix(s("/api"))))])),
        "<rule 0>:\n├── matches path prefix: /api\n└── backends: <empty>\n"
    );
    assert_eq!(
        rule_lines(matching(vec![headers(vec![("x-a", None)])])),
        "<rule 0>:\n├── matches headers (all):\n│   └── x-a: \"\"\n└── backends: <empty>\n"
    );
}

#[test]
fn matches_that_ask_for_nothing_are_not_shown() {
    assert_eq!(
        rule_lines(matching(vec![any_request(), any_request()])),
        "<rule 0>:\n└── backends: <empty>\n"
    );
}

#[test]
fn several_matches_are_shown_together() {
    let all = HttpRouteMatch {
        headers: vec![
            HeaderMatch { name: s("x-exact"), value: Some(HeaderValue::Exact(b"yes".to_vec())) },
            HeaderMatch { name: s("x-regex"), value: Some(HeaderValue::Regex(s("^a+$"))) },
        ],
        method: Some(HttpMethod { kind: Some(MethodKind::Registered(1)) }),
        path: Some(PathMatch { kind: Some(PathKind::Exact(s("/vote"))) }),
        query_params: vec![
            QueryParamMatch { name: s("a"), value: Some(QueryValue::Exact(s("1"))) },
            QueryParamMatch { name: s("b"), value: Some(QueryValue::Regex(s("[0-9]"))) },
            QueryParamMatch { name: s("c"), value: None },
        ],
    };
    assert_eq!(
        rule_lines(matching(vec![all, path(Some(PathKind::Regex(s("/.*"))))])),
        "\
<rule 0>:
├── matches (any):
│   ├── headers (all):
│   │   ├── x-exact: yes
│   │   └── x-regex: Regex: ^a+$
│   ├── method: POST
│   ├── exact path: /vote
│   ├── query params (all):
│   │   ├── a: 1
│   │   ├── b: regex: [0-9]
│   │   └── c:
│   └── path regex: /.*
└── backends: <empty>
"
    );
}

#[test]
fn registered_methods_have_their_names() {
    let names = ["GET", "POST", "PUT", "DELETE", "PATCH", "OPTIONS", "CONNECT", "HEAD", "TRACE"];
    for (code, name) in names.iter().enumerate() {
        assert_eq!(
            rule_lines(matching(vec![method(Some(MethodKind::Registered(code as i32)))])),
            format!("<rule 0>:\n├── matches method: {}\n└── backends: <empty>\n", name)
        );
    }
    assert_eq!(
        rule_lines(matching(vec![method(Some(MethodKind::Unregistered(s("PURGE"))))])),
        "<rule 0>:\n├── matches method: PURGE\n└── backends: <empty>\n"
    );
}

#[test]
fn unknown_methods_are_refused() {
    for code in [9, -1, 1000, i32::MIN] {
        assert!(matches!(
            http1_trace(
                vec![matching(vec![method(Some(MethodKind::Registered(code)))])],
                vec![]
            ),
            Err(Stop::UnknownMethod(found)) if found == code
        ));
    }
}

#[test]
fn header_bytes_are_shown_as_text() {
    let value = |bytes: &[u8]| {
        rule_lines(matching(vec![headers(vec![(
            "h",
            Some(HeaderValue::Exact(bytes.to_vec())),
        )])]))
    };
    let line = |text: &str| {
        format!("<rule 0>:\n├── matches headers (all):\n│   └── h: {}\n└── backends: <empty>\n", text)
    };
    assert_eq!(value("grün ✓".as_bytes()), line("grün ✓"));
    assert_eq!(value(&[0x61, 0xff, 0x62]), line("a\u{fffd}b"));
    assert_eq!(value(&[]), line(""));
}

#[test]
fn matches_without_kind_are_not_shown() {
    for m in [method(None), path(None)] {
        assert!(matches!(
            http1_trace(vec![matching(vec![m])], vec![]),
            Err(Stop::Abort(Abort::Missing))
        ));
    }
}

fn filtered(kinds: Vec<Option<FilterKind>>) -> HttpRule {
    HttpRule {
        matches: vec![],
        filters: kinds.into_iter().map(|kind| Filter { kind }).collect(),
        backends: empty(),
    }
}

#[test]
fn failure_injectors_are_shown() {
    let injector = FilterKind::FailureInjector(FailureInjector {
        percent: s("25"),
        status: 503,
        message: s("try later"),
    });
    assert_eq!(
        rule_lines(filtered(vec![Some(injector)])),
        "\
<rule 0>:
├── failure injector: 25% of requests fail with code 503 and status try later
└── backends: <empty>
"
    );
}

#[test]
fn failure_injectors_without_ratio_work_on_all_requests() {
    let all = injected_ratio(None);
    assert_eq!((all.numerator, all.denominator), (1, 1));
    let some = injected_ratio(Some(Ratio { numerator: 1, denominator: 4 }));
    assert_eq!((some.numerator, some.denominator), (1, 4));
}

#[test]
fn other_filters_are_not_shown() {
    for kind in [
        FilterKind::RequestHeaderModifier,
        FilterKind::Redirect,
        FilterKind::ResponseHeaderModifier,
    ] {
        assert!(matches!(
            http1_trace(vec![filtered(vec![Some(kind)])], vec![]),
            Err(Stop::Abort(Abort::Unsupported))
        ));
    }
    assert!(matches!(
        http1_trace(vec![filtered(vec![None])], vec![]),
        Err(Stop::Abort(Abort::Missing))
    ));
}

#[test]
fn weighted_backends_are_shown_by_path_and_weight() {
    let text = http1_trace(
        vec![rule(random(vec![(backend(1), 90), (plain_backend(2), 10)]))],
        vec![Reply::Service(service(Some("10.43.0.7")))],
    )
    .unwrap();
    assert_eq!(
        text,
        "\
trace for service web-svc.emojivoto:
└── <default HTTP/1 route \"http\">:
    └── <rule 0>:
        └── backends (random):
            ├── web-svc.emojivoto.svc.cluster.local:80:
            │   └── weight: 90
            └── web-svc.emojivoto.svc.cluster.local:80:
                └── weight: 10
"
    );
}

#[test]
fn weighted_backends_are_looked_up() {
    assert!(matches!(
        http1_trace(vec![rule(random(vec![(backend(1), 1)]))], vec![]),
        Err(Stop::Ask(Request::Service { .. }))
    ));
}

#[test]
fn http_distributions_with_gaps_are_not_shown() {
    let missing = |backends: Option<HttpDistribution>| {
        matches!(
            http1_trace(vec![rule(backends)], web_replies()),
            Err(Stop::Abort(Abort::Missing))
        )
    };
    let gap = || HttpRouteBackend { backend: None, filters: Vec::new() };
    let weighted = |backend: Option<HttpRouteBackend>| {
        Some(HttpDistribution {
            kind: Some(HttpDistributionKind::RandomAvailable(vec![WeightedHttpRouteBackend {
                backend,
                weight: 1,
            }])),
        })
    };
    assert!(missing(Some(HttpDistribution { kind: None })));
    assert!(missing(Some(HttpDistribution {
        kind: Some(HttpDistributionKind::FirstAvailable(vec![gap()])),
    })));
    assert!(missing(weighted(None)));
    assert!(missing(weighted(Some(gap()))));
    let no_metadata = || backend_of(1, None, Some(balancer(PATH)));
    let no_kind = || backend_of(1, Some(resource("a", "B", "c")), None);
    let no_path = || {
        let kind = BackendKind::Balancer(Balancer { discovery: None });
        backend_of(1, Some(resource("a", "B", "c")), Some(kind))
    };
    let no_discovery = || {
        let discovery = Some(EndpointDiscovery { kind: None });
        let kind = BackendKind::Balancer(Balancer { discovery });
        backend_of(1, Some(resource("a", "B", "c")), Some(kind))
    };
    for backend in [no_metadata(), no_kind(), no_path(), no_discovery()] {
        assert!(missing(first(vec![backend])));
    }
    for backend in [no_metadata(), no_kind(), no_path(), no_discovery()] {
        assert!(missing(random(vec![(backend, 1)])));
    }
}

#[test]
fn parts_without_a_picture_are_unsupported() {
    let unsupported = |backends: Option<HttpDistribution>, replies: Vec<Reply>| {
        matches!(
            http1_trace(vec![rule(backends)], replies),
            Err(Stop::Abort(Abort::Unsupported))
        )
    };
    assert!(unsupported(None, vec![]));
    let forward = || backend_of(1, Some(resource("a", "B", "c")), Some(BackendKind::Forward));
    assert!(unsupported(first(vec![forward()]), vec![]));
    assert!(unsupported(random(vec![(forward(), 1)]), vec![]));
    let default = backend_of(1, Some(default_meta("x")), Some(balancer(PATH)));
    assert!(unsupported(first(vec![default]), vec![]));
    let filters = || HttpRouteBackend {
        backend: Some(plain_backend(1)),
        filters: vec![Filter { kind: None }],
    };
    assert!(unsupported(
        Some(HttpDistribution {
            kind: Some(HttpDistributionKind::FirstAvailable(vec![filters()])),
        }),
        vec![Reply::Endpoints(vec![])]
    ));
    assert!(unsupported(
        Some(HttpDistribution {
            kind: Some(HttpDistributionKind::RandomAvailable(vec![WeightedHttpRouteBackend {
                backend: Some(filters()),
                weight: 1,
            }])),
        }),
        vec![]
    ));
}

fn opaque_lines(
    backends: Option<OpaqueDistribution>,
    replies: Vec<Reply>,
) -> Result<String, Stop> {
    create_opaque_nodes(&mut TraceCtx::new(&replies), &opaque(backends)).map(|trees| shown(&trees))
}

#[test]
fn opaque_routes_are_shown_with_their_backends() {
    assert_eq!(
        opaque_lines(opaque_first(vec![plain_backend(1)]), vec![Reply::Endpoints(vec![])]).unwrap(),
        "\
<default opaque route \"opaque\">:
└── <rule 0>:
    └── backends (first available):
        └── policy.EgressNetwork/out:80 -n emojivoto (http):
            └── FQDN: web-svc.emojivoto.svc.cluster.local:80
"
    );
}

#[test]
fn opaque_distributions_with_gaps_are_not_shown() {
    assert!(matches!(opaque_lines(None, vec![]), Err(Stop::Abort(Abort::Missing))));
    assert!(matches!(
        opaque_lines(Some(OpaqueDistribution { kind: None }), vec![]),
        Err(Stop::Abort(Abort::Missing))
    ));
    let gap = OpaqueDistributionKind::FirstAvailable(vec![OpaqueRouteBackend { backend: None }]);
    assert!(matches!(
        opaque_lines(Some(OpaqueDistribution { kind: Some(gap) }), vec![]),
        Err(Stop::Abort(Abort::Missing))
    ));
    assert!(matches!(
        opaque_lines(opaque_random(vec![backend(1)]), vec![]),
        Err(Stop::Abort(Abort::Unsupported))
    ));
}

#[test]
fn services_are_shown_with_their_address() {
    let replies = vec![Reply::Service(service(Some("10.43.0.7")))];
    let tree =
        metadata_node(&mut TraceCtx::new(&replies), &resource("core", "Service", "web")).unwrap();
    assert_eq!(tree.render(), "svc web.emojivoto:80:\n└── endpoint: 10.43.0.7:80\n");
}

#[test]
fn other_resources_are_shown_by_name() {
    let replies = vec![];
    for (group, kind) in [("core", "Pod"), ("apps", "Service")] {
        let meta = resource(group, kind, "web");
        let tree = metadata_node(&mut TraceCtx::new(&replies), &meta).unwrap();
        assert_eq!(
            tree.render(),
            format!("{}.{}/web:80 -n emojivoto (http):\n", group, kind)
        );
    }
}

#[test]
fn services_without_address_are_not_shown() {
    let node = |service: Service| {
        let replies = vec![Reply::Service(service)];
        metadata_node(&mut TraceCtx::new(&replies), &resource("core", "Service", "web"))
    };
    assert!(matches!(node(service(None)), Err(Stop::Abort(Abort::Unsupported))));
    let bare = Service { spec: None, ..service(None) };
    assert!(matches!(node(bare), Err(Stop::Abort(Abort::Missing))));
    let replies = vec![];
    assert!(matches!(
        metadata_node(&mut TraceCtx::new(&replies), &Metadata { kind: None }),
        Err(Stop::Abort(Abort::Missing))
    ));
}

fn backend_lines(mut replies: Vec<Reply>) -> Result<String, Stop> {
    replies.insert(0, Reply::Service(service(Some("10.43.0.7"))));
    create_backend_node(&mut TraceCtx::new(&replies), &backend(1)).map(|tree| tree.render())
}

#[test]
fn backends_are_shown_with_their_workloads() {
    assert_eq!(backend_lines(web_replies().split_off(1)).unwrap(), WEB_BACKEND);
}

#[test]
fn workloads_are_grouped_in_the_order_of_their_endpoints() {
    let containers = [("app", true), ("proxy", false), ("log", false)];
    let replies = vec![
        Reply::Endpoints(vec![
            endpoint(1, "agent-1"),
            endpoint(2, "web-1"),
            endpoint(3, "db-1"),
            endpoint(4, "web-2"),
            endpoint(5, "web-1"),
        ]),
        Reply::Pod(pod("agent-1", ("DaemonSet", "agent"), &containers)),
        Reply::DaemonSet(DaemonSet { metadata: meta("agent", &[]) }),
        Reply::Pod(pod("web-1", ("ReplicaSet", "web-rs"), &containers)),
        Reply::ReplicaSet(replicaset("web-rs", ("Deployment", "web"), None)),
        Reply::Deployment(deployment("web")),
        Reply::Pod(pod("db-1", ("ReplicaSet", "db-rs"), &[])),
        Reply::ReplicaSet(replicaset("db-rs", ("StatefulSet", "db"), Some(-1))),
        Reply::StatefulSet(StatefulSet { metadata: meta("db", &[]) }),
        Reply::Pod(pod("web-2", ("ReplicaSet", "web-rs"), &[("app", false)])),
        Reply::ReplicaSet(replicaset("web-rs", ("Deployment", "web"), Some(2))),
        Reply::Deployment(deployment("web")),
        Reply::Pod(pod("web-1", ("ReplicaSet", "web-rs"), &[])),
        Reply::ReplicaSet(replicaset("web-rs", ("Deployment", "web"), Some(2))),
        Reply::Deployment(deployment("web")),
    ];
    assert_eq!(
        backend_lines(replies).unwrap(),
        "\
svc web-svc.emojivoto:80:
├── endpoint: 10.43.0.7:80
├── FQDN: web-svc.emojivoto.svc.cluster.local:80
├── deployment web:
│   └── replicaset web-rs (0/2 replicas available):
│       ├── pod web-1 (1/3 containers ready):
│       │   ├── ready containers: app
│       │   ├── pending containers: proxy, log
│       │   ├── endpoint: 10.0.0.2:80
│       │   └── endpoint: 10.0.0.5:80
│       └── pod web-2 (0/1 containers ready):
│           ├── pending containers: app
│           └── endpoint: 10.0.0.4:80
├── statefulset db:
│   └── replicaset db-rs (-1/2 replicas available):
│       └── pod db-1 (0/0 containers ready):
│           └── endpoint: 10.0.0.3:80
└── daemonset agent:
    └── pod agent-1 (1/3 containers ready):
        ├── ready containers: app
        ├── pending containers: proxy, log
        └── endpoint: 10.0.0.1:80
"
    );
}

#[test]
fn an_address_is_listed_once_in_its_pod() {
    let mut replies = web_replies().split_off(1);
    replies[0] = Reply::Endpoints(vec![endpoint(1, "web-1"), endpoint(1, "web-1")]);
    replies.extend(web_replies().split_off(2));
    assert_eq!(backend_lines(replies).unwrap(), WEB_BACKEND);
}

#[test]
fn children_hold_the_endpoints() {
    let replies = web_replies().split_off(1);
    let mut ctx = TraceCtx::new(&replies);
    let children = get_service_children(&mut ctx, &s(PATH)).unwrap();
    assert_eq!(ctx.at, 4);
    assert!(children.is_complete());
    assert_eq!(children.deploy.in_order().len(), 1);
    assert_eq!(children.sts.in_order().len(), 0);
    assert_eq!(children.ds.in_order().len(), 0);
    let sets = children.deploy.in_order()[0].replicasets.in_order();
    assert_eq!(sets.len(), 1);
    assert_eq!(sets[0].pods.in_order().len(), 1);
}

#[test]
fn endpoints_without_labels_are_not_placed() {
    for missing in 0..2 {
        let mut unlabelled = endpoint(1, "web-1");
        unlabelled.metric_labels.remove(missing);
        assert!(matches!(
            backend_lines(vec![Reply::Endpoints(vec![unlabelled])]),
            Err(Stop::Abort(Abort::Unsupported))
        ));
    }
}

fn owned_by(metadata: ObjectMeta) -> Result<String, Stop> {
    let pod = Pod { metadata, ..pod("web-1", ("ReplicaSet", "web-rs"), &[]) };
    backend_lines(vec![Reply::Endpoints(vec![endpoint(1, "web-1")]), Reply::Pod(pod)])
}

#[test]
fn pods_without_one_owner_are_not_placed() {
    let unowned = ObjectMeta { owner_references: None, ..meta("web-1", &[]) };
    assert!(matches!(owned_by(unowned), Err(Stop::Abort(Abort::Unsupported))));
    assert!(matches!(owned_by(meta("web-1", &[])), Err(Stop::Abort(Abort::Unsupported))));
    let several = meta("web-1", &[("ReplicaSet", "a"), ("ReplicaSet", "b")]);
    assert!(matches!(owned_by(several), Err(Stop::Abort(Abort::SeveralOwners))));
    assert!(matches!(
        owned_by(meta("web-1", &[("Job", "once")])),
        Err(Stop::Abort(Abort::UnsupportedOwner(kind))) if kind == "Job"
    ));
}

#[test]
fn replica_sets_without_a_known_owner_are_not_placed() {
    let mut replies = web_replies().split_off(1);
    replies[2] = Reply::ReplicaSet(replicaset("web-rs", ("Rollout", "web"), None));
    assert!(matches!(
        backend_lines(replies),
        Err(Stop::Abort(Abort::UnsupportedOwner(kind))) if kind == "Rollout"
    ));
    let mut replies = web_replies().split_off(1);
    let several = meta("web-rs", &[("Deployment", "a"), ("Deployment", "b")]);
    replies[2] = Reply::ReplicaSet(ReplicaSet { metadata: several, status: None });
    assert!(matches!(backend_lines(replies), Err(Stop::Abort(Abort::SeveralOwners))));
}

#[test]
fn the_one_owner_is_found() {
    let owned = meta("web-1", &[("DaemonSet", "agent")]);
    assert!(check_owner(&owned).is_ok());
    assert_eq!(get_owner_reference(&owned).kind, "DaemonSet");
    assert_eq!(get_owner_reference(&owned).name, "agent");
    assert!(matches!(check_owner(&meta("web-1", &[])), Err(Abort::Unsupported)));
}

#[test]
fn workloads_that_say_too_little_are_not_shown() {
    let missing = |replies: Vec<Reply>| {
        matches!(backend_lines(replies), Err(Stop::Abort(Abort::Missing)))
    };
    let nameless = |metadata: ObjectMeta| ObjectMeta { name: None, ..metadata };
    let at = |i: usize, reply: Reply| {
        let mut replies = web_replies().split_off(1);
        replies[i] = reply;
        replies
    };
    let web = || pod("web-1", ("ReplicaSet", "web-rs"), &[]);
    let set = || replicaset("web-rs", ("Deployment", "web"), None);
    assert!(!missing(at(1, Reply::Pod(web()))));
    assert!(missing(at(1, Reply::Pod(Pod { status: None, ..web() }))));
    let silent = Some(PodStatus { container_statuses: None });
    assert!(missing(at(1, Reply::Pod(Pod { status: silent, ..web() }))));
    assert!(missing(at(1, Reply::Pod(Pod { metadata: nameless(web().metadata), ..web() }))));
    assert!(missing(at(2, Reply::ReplicaSet(ReplicaSet { status: None, ..set() }))));
    assert!(missing(at(
        2,
        Reply::ReplicaSet(ReplicaSet { metadata: nameless(set().metadata), ..set() })
    )));
    assert!(missing(at(
        3,
        Reply::Deployment(Deployment { metadata: nameless(meta("web", &[])) })
    )));
    let agent = |metadata: ObjectMeta| {
        vec![
            Reply::Endpoints(vec![endpoint(1, "agent-1")]),
            Reply::Pod(pod("agent-1", ("DaemonSet", "agent"), &[])),
            Reply::DaemonSet(DaemonSet { metadata }),
        ]
    };
    assert!(!missing(agent(meta("agent", &[]))));
    assert!(missing(agent(nameless(meta("agent", &[])))));
    let db = |metadata: ObjectMeta| {
        vec![
            Reply::Endpoints(vec![endpoint(1, "db-1")]),
            Reply::Pod(pod("db-1", ("ReplicaSet", "db-rs"), &[])),
            Reply::ReplicaSet(replicaset("db-rs", ("StatefulSet", "db"), None)),
            Reply::StatefulSet(StatefulSet { metadata }),
        ]
    };
    assert!(!missing(db(meta("db", &[]))));
    assert!(missing(db(nameless(meta("db", &[])))));
}
