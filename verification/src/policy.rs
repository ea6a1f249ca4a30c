//! The outbound policy of a service: what the policy controller tells proxies to do.
//!
//! A field that may be absent on the wire is an `Option` here.
use vstd::prelude::*;

verus! {

/// What a part of the policy came from.
pub struct Metadata {
    pub kind: Option<MetadataKind>,
}

/// A built-in default, or a resource in the cluster.
pub enum MetadataKind {
    Default(String),
    Resource(Resource),
}

/// A resource in the cluster.
pub struct Resource {
    pub group: String,
    pub kind: String,
    pub name: String,
    pub namespace: String,
    pub section: String,
    pub port: u32,
}

/// Where requests may be sent.
pub struct Backend {
    /// The number that [`identity_of`](crate::identity::identity_of) gives to the backend:
    /// backends that agree in every field, and no others, share one.
    pub identity: u64,
    pub metadata: Option<Metadata>,
    pub kind: Option<BackendKind>,
}

/// How requests reach a backend.
pub enum BackendKind {
    Forward,
    Balancer(Balancer),
}

/// A balancer over discovered endpoints.
pub struct Balancer {
    pub discovery: Option<EndpointDiscovery>,
}

/// Where endpoints are discovered.
pub struct EndpointDiscovery {
    pub kind: Option<Discovery>,
}

/// The kinds of discovery.
pub enum Discovery {
    /// By a path at the destination service.
    Dst(String),
}

/// The protocol that a service speaks.
pub struct OutboundPolicy {
    pub protocol: Option<ProxyProtocol>,
}

/// The protocol that a service speaks.
pub struct ProxyProtocol {
    pub kind: Option<ProtocolKind>,
}

/// The kinds of protocol.
pub enum ProtocolKind {
    Detect(Detect),
    Opaque(Opaque),
    Http1(Http1),
    Http2(Http2),
    Grpc,
    Tls,
}

/// A protocol that proxies detect for each connection.
pub struct Detect {
    pub opaque: Option<Opaque>,
    pub http1: Option<Http1>,
    pub http2: Option<Http2>,
}

/// Routes for connections of unknown protocol.
pub struct Opaque {
    pub routes: Vec<OpaqueRoute>,
}

/// Routes for HTTP/1.
pub struct Http1 {
    pub routes: Vec<HttpRoute>,
}

/// Routes for HTTP/2.
pub struct Http2 {
    pub routes: Vec<HttpRoute>,
}

/// A route for connections of unknown protocol.
pub struct OpaqueRoute {
    pub metadata: Option<Metadata>,
    pub rules: Vec<OpaqueRule>,
}

/// A rule of an opaque route.
pub struct OpaqueRule {
    pub backends: Option<OpaqueDistribution>,
}

/// How connections are spread over backends.
pub struct OpaqueDistribution {
    pub kind: Option<OpaqueDistributionKind>,
}

/// The ways in which connections are spread over backends.
pub enum OpaqueDistributionKind {
    Empty,
    FirstAvailable(Vec<OpaqueRouteBackend>),
    RandomAvailable(Vec<WeightedOpaqueRouteBackend>),
}

/// A backend of an opaque route.
pub struct OpaqueRouteBackend {
    pub backend: Option<Backend>,
}

/// A backend of an opaque route, and its weight among the others.
pub struct WeightedOpaqueRouteBackend {
    pub backend: Option<OpaqueRouteBackend>,
    pub weight: u32,
}

/// A route for HTTP requests.
pub struct HttpRoute {
    pub metadata: Option<Metadata>,
    pub rules: Vec<HttpRule>,
}

/// A rule of an HTTP route.
pub struct HttpRule {
    pub matches: Vec<HttpRouteMatch>,
    pub filters: Vec<Filter>,
    pub backends: Option<HttpDistribution>,
}

/// What a request has to be like for a rule to hold.
pub struct HttpRouteMatch {
    pub headers: Vec<HeaderMatch>,
    pub method: Option<HttpMethod>,
    pub path: Option<PathMatch>,
    pub query_params: Vec<QueryParamMatch>,
}

/// What a header has to be like.
pub struct HeaderMatch {
    pub name: String,
    pub value: Option<HeaderValue>,
}

/// What the value of a header has to be like.
pub enum HeaderValue {
    Exact(Vec<u8>),
    Regex(String),
}

/// A request's method.
pub struct HttpMethod {
    pub kind: Option<MethodKind>,
}

/// A method by its number, or by its name.
pub enum MethodKind {
    Registered(i32),
    Unregistered(String),
}

/// What a path has to be like.
pub struct PathMatch {
    pub kind: Option<PathKind>,
}

/// The ways to match a path.
pub enum PathKind {
    Exact(String),
    Prefix(String),
    Regex(String),
}

/// What a query parameter has to be like.
pub struct QueryParamMatch {
    pub name: String,
    pub value: Option<QueryValue>,
}

/// What the value of a query parameter has to be like.
pub enum QueryValue {
    Exact(String),
    Regex(String),
}

/// What is done to requests that a rule holds for.
pub struct Filter {
    pub kind: Option<FilterKind>,
}

/// The kinds of filter.
pub enum FilterKind {
    FailureInjector(FailureInjector),
    RequestHeaderModifier,
    Redirect,
    ResponseHeaderModifier,
}

/// A filter that makes a share of the requests fail.
pub struct FailureInjector {
    /// The share that fails, in percent, as text.
    pub percent: String,
    pub status: u32,
    pub message: String,
}

/// A share of all requests.
#[derive(Clone, Copy, Debug)]
pub struct Ratio {
    pub numerator: u32,
    pub denominator: u32,
}

/// The share that a failure injector works on: all requests where it names none.
pub fn injected_ratio(ratio: Option<Ratio>) -> (r: Ratio)
    ensures
        r == (match ratio {
            Some(ratio) => ratio,
            None => Ratio { numerator: 1, denominator: 1 },
        }),
{
    match ratio {
        Some(ratio) => ratio,
        None => Ratio { numerator: 1, denominator: 1 },
    }
}

/// How requests are spread over backends.
pub struct HttpDistribution {
    pub kind: Option<HttpDistributionKind>,
}

/// The ways in which requests are spread over backends.
pub enum HttpDistributionKind {
    Empty,
    FirstAvailable(Vec<HttpRouteBackend>),
    RandomAvailable(Vec<WeightedHttpRouteBackend>),
}

/// A backend of an HTTP route.
pub struct HttpRouteBackend {
    pub backend: Option<Backend>,
    pub filters: Vec<Filter>,
}

/// A backend of an HTTP route, and its weight among the others.
pub struct WeightedHttpRouteBackend {
    pub backend: Option<HttpRouteBackend>,
    pub weight: u32,
}

} // verus!
