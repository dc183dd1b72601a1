//! Plain-data model of a cluster object as the dashboard reads it:
//! identity, creation time, declared containers, and the fragment of
//! runtime status the derived views consume. The network client
//! produces these values at the boundary; everything in the core works
//! on them.

use vstd::prelude::*;

verus! {

/// Runtime status of one container, as reported by the cluster.
#[derive(Debug)]
pub struct ContainerInfo {
    /// The container's name; matches a declared container of the pod.
    pub name: String,
    /// Whether the container currently reports ready.
    pub ready: bool,
    /// How many times the container has restarted.
    pub restart_count: u32,
    /// A waiting state is currently reported.
    pub waiting: bool,
    /// The reason of the waiting state, when one is given.
    pub waiting_reason: Option<String>,
    /// The reason of a current terminated state, when one is given.
    pub terminated_reason: Option<String>,
    /// When the previous run of the container finished, in seconds
    /// since the epoch, if it ever terminated.
    pub last_finished_at: Option<i64>,
}

/// Mathematical image of a [`ContainerInfo`].
pub ghost struct ContainerInfoView {
    pub name: Seq<char>,
    pub ready: bool,
    pub restart_count: u32,
    pub waiting: bool,
    pub waiting_reason: Option<Seq<char>>,
    pub terminated_reason: Option<Seq<char>>,
    pub last_finished_at: Option<i64>,
}

/// The view of an optional string: the character sequence, if present.
pub open spec fn opt_str_view(o: Option<String>) -> Option<Seq<char>> {
    match o {
        Option::Some(s) => Option::Some(s@),
        Option::None => Option::None,
    }
}

impl View for ContainerInfo {
    type V = ContainerInfoView;

    open spec fn view(&self) -> ContainerInfoView {
        ContainerInfoView {
            name: self.name@,
            ready: self.ready,
            restart_count: self.restart_count,
            waiting: self.waiting,
            waiting_reason: opt_str_view(self.waiting_reason),
            terminated_reason: opt_str_view(self.terminated_reason),
            last_finished_at: self.last_finished_at,
        }
    }
}

/// The status block of a pod, as far as the dashboard reads it.
#[derive(Debug)]
pub struct PodStatusInfo {
    /// The raw top-level phase text, if reported.
    pub phase: Option<String>,
    /// The pod's assigned network address, if reported.
    pub pod_ip: Option<String>,
    /// Per-container statuses, if reported.
    pub container_statuses: Option<Vec<ContainerInfo>>,
}

/// Mathematical image of a [`PodStatusInfo`].
pub ghost struct PodStatusInfoView {
    pub phase: Option<Seq<char>>,
    pub pod_ip: Option<Seq<char>>,
    pub container_statuses: Option<Seq<ContainerInfoView>>,
}

impl View for PodStatusInfo {
    type V = PodStatusInfoView;

    open spec fn view(&self) -> PodStatusInfoView {
        PodStatusInfoView {
            phase: opt_str_view(self.phase),
            pod_ip: opt_str_view(self.pod_ip),
            container_statuses: match self.container_statuses {
                Option::Some(cs) => Option::Some(cs@.map_values(|c: ContainerInfo| c@)),
                Option::None => Option::None,
            },
        }
    }
}

/// One observed cluster object. A new version replaces a previous one
/// under the same key; values are never mutated in place.
#[derive(Debug)]
pub struct PodData {
    /// The namespace the object lives in; empty when it has none.
    pub namespace: String,
    /// The object's name, unique within the namespace.
    pub name: String,
    /// Creation time in seconds since the epoch, if known.
    pub created_at: Option<i64>,
    /// Names of the containers the object declares.
    pub spec_containers: Vec<String>,
    /// The status block, if the cluster has reported one.
    pub status: Option<PodStatusInfo>,
}

/// Mathematical image of a [`PodData`].
pub ghost struct PodDataView {
    pub namespace: Seq<char>,
    pub name: Seq<char>,
    pub created_at: Option<i64>,
    pub spec_containers: Seq<Seq<char>>,
    pub status: Option<PodStatusInfoView>,
}

impl View for PodData {
    type V = PodDataView;

    open spec fn view(&self) -> PodDataView {
        PodDataView {
            namespace: self.namespace@,
            name: self.name@,
            created_at: self.created_at,
            spec_containers: self.spec_containers@.map_values(|s: String| s@),
            status: match self.status {
                Option::Some(st) => Option::Some(st@),
                Option::None => Option::None,
            },
        }
    }
}

impl PodDataView {
    /// The key the store sorts and addresses by.
    pub open spec fn key(self) -> (Seq<char>, Seq<char>) {
        (self.namespace, self.name)
    }
}

} // verus!
