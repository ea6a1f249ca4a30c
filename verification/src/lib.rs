//! Trace trees for meshed services.
//!
//! A trace shows how requests to a service are routed: the routes and rules of its outbound
//! policy, their backends, and the workloads behind those.
pub mod address;
pub mod children;
pub mod cluster;
pub mod ctx;
pub mod defaults;
pub mod drawing;
pub mod endpoints;
pub mod identity;
pub mod keyed;
pub mod lookups;
pub mod placement;
pub mod policy;
pub mod protocol;
pub mod replay;
pub mod routes;
pub mod service;
pub mod target;
pub mod text;
pub mod tree;
