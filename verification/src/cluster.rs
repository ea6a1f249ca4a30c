//! The objects of the cluster, with what the trace reads of them.
use crate::address::SocketAddr;
use vstd::prelude::*;

verus! {

/// What all objects have.
pub struct ObjectMeta {
    pub name: Option<String>,
    pub namespace: Option<String>,
    pub owner_references: Option<Vec<OwnerReference>>,
}

/// The object that another one belongs to.
pub struct OwnerReference {
    pub kind: String,
    pub name: String,
}

/// A service.
pub struct Service {
    pub metadata: ObjectMeta,
    pub spec: Option<ServiceSpec>,
}

/// What a service is meant to be.
pub struct ServiceSpec {
    pub cluster_ip: Option<String>,
}

/// A pod.
pub struct Pod {
    pub metadata: ObjectMeta,
    pub status: Option<PodStatus>,
}

/// How a pod is doing.
pub struct PodStatus {
    pub container_statuses: Option<Vec<ContainerStatus>>,
}

/// How a container is doing.
pub struct ContainerStatus {
    pub name: String,
    pub ready: bool,
}

/// A replica set.
pub struct ReplicaSet {
    pub metadata: ObjectMeta,
    pub status: Option<ReplicaSetStatus>,
}

/// How a replica set is doing.
pub struct ReplicaSetStatus {
    pub replicas: i32,
    pub available_replicas: Option<i32>,
}

/// A deployment.
pub struct Deployment {
    pub metadata: ObjectMeta,
}

/// A stateful set.
pub struct StatefulSet {
    pub metadata: ObjectMeta,
}

/// A daemon set.
pub struct DaemonSet {
    pub metadata: ObjectMeta,
}

/// An endpoint of a destination.
pub struct Endpoint {
    pub addr: SocketAddr,
    /// The address as text.
    pub text: String,
    pub metric_labels: Vec<(String, String)>,
}

} // verus!
