//! Container state kept on disk, and the decisions taken from it: which
//! containers restart, which are dead, which may be started, stopped or deleted.
use crate::text::str_eq;
use vstd::prelude::*;

verus! {

#[derive(Debug, Clone, Copy, PartialEq, Eq, Structural)]
pub enum ContainerStatus {
    Active,
    Stopped,
    Exited,
}

impl ContainerStatus {
    /// The status as `Display` shows it: the variant's name.
    pub fn name(&self) -> (r: String)
        ensures
            r@ == match self {
                ContainerStatus::Active => "Active"@,
                ContainerStatus::Stopped => "Stopped"@,
                ContainerStatus::Exited => "Exited"@,
            },
    {
        match self {
            ContainerStatus::Active => crate::text::string_from("Active"),
            ContainerStatus::Stopped => crate::text::string_from("Stopped"),
            ContainerStatus::Exited => crate::text::string_from("Exited"),
        }
    }
}

#[derive(Debug, Clone, Copy, PartialEq, Eq, Structural)]
pub enum RestartPolicy {
    Never,
    OnFailure,
    Always,
}

impl Default for RestartPolicy {
    /// A container is not restarted unless asked for.
    fn default() -> (r: Self)
        ensures
            r == RestartPolicy::Never,
    {
        RestartPolicy::Never
    }
}

/// Resolved settings of a container about to start.
#[derive(Debug)]
pub struct ContainerReady {
    pub layout_name: String,
    pub args: Vec<String>,
    pub quota: Option<i64>,
    pub memory_limit: Option<i64>,
    pub restart_policy: RestartPolicy,
}

/// The state of a container as its `config.json` keeps it. The address is
/// an IPv4 address as a 32-bit number; the working directory is a path.
#[derive(Debug)]
pub struct RuntimeConfig {
    pub layout_name: String,
    pub container_name: String,
    pub status: ContainerStatus,
    pub restart_policy: RestartPolicy,
    pub workdir: String,
    pub ip_address: u32,
    pub memory_limit: i64,
    pub cpu_limit: i64,
    pub args: Vec<String>,
    pub pid: i32,
    pub boot_id: String,
    pub is_detached: bool,
    pub rm: bool,
}

/// A detached container whose policy is `Always` is started again on boot.
pub open spec fn spec_should_autostart(is_detached: bool, policy: RestartPolicy) -> bool {
    is_detached && policy == RestartPolicy::Always
}

/// Only detached containers whose policy is `Always` are started again on
/// boot: a container run in the foreground never is, and neither is one
/// whose policy is `Never` (the default) or `OnFailure`.
pub proof fn law_autostart_only_detached_always(is_detached: bool, policy: RestartPolicy)
    ensures
        spec_should_autostart(is_detached, policy) ==> is_detached,
        spec_should_autostart(is_detached, policy) ==> (policy is Always),
        is_detached && (policy is Always) ==> spec_should_autostart(
            is_detached,
            policy,
        ),
        !spec_should_autostart(is_detached, RestartPolicy::Never),
        !spec_should_autostart(is_detached, RestartPolicy::OnFailure),
        !spec_should_autostart(false, policy),
{
}

/// Whether the container is started again by the autostart service.
pub fn should_autostart(config: &RuntimeConfig) -> (r: bool)
    ensures
        r == spec_should_autostart(config.is_detached, config.restart_policy),
{
    config.is_detached && config.restart_policy == RestartPolicy::Always
}

/// What is known of a container's process before asking the system.
#[derive(Debug, Clone, Copy, PartialEq, Eq)]
pub enum Liveness {
    /// It cannot be running: no valid pid, or it was started before the
    /// last boot.
    Dead,
    /// It may be running: the system has to be asked whether `pid` exists.
    Probe,
}

/// `Dead` when `pid <= 0` or the saved boot id differs from the current one.
pub open spec fn spec_liveness(pid: i32, saved_boot_id: Option<Seq<char>>, current_boot_id: Seq<
    char,
>) -> Liveness {
    if pid <= 0 {
        Liveness::Dead
    } else if saved_boot_id is Some && saved_boot_id->0 != current_boot_id {
        Liveness::Dead
    } else {
        Liveness::Probe
    }
}

/// The first part of the liveness check of a container process.
pub fn liveness(pid: i32, saved_boot_id: Option<&str>, current_boot_id: &str) -> (r: Liveness)
    ensures
        r == spec_liveness(
            pid,
            match saved_boot_id {
                Some(s) => Some(s@),
                None => None,
            },
            current_boot_id@,
        ),
{
    if pid <= 0 {
        return Liveness::Dead;
    }
    if let Some(saved) = saved_boot_id {
        if !str_eq(saved, current_boot_id) {
            return Liveness::Dead;
        }
    }
    Liveness::Probe
}

/// Records that a container found not alive has stopped: an `Active`
/// container that is not `alive` becomes `Stopped` with pid 0 (and the
/// function returns true); any other is left as it is.
pub fn refresh_config(config: &mut RuntimeConfig, alive: bool) -> (changed: bool)
    ensures
        changed == (old(config).status == ContainerStatus::Active && !alive),
        changed ==> {
            &&& final(config).status == ContainerStatus::Stopped
            &&& final(config).pid == 0
            &&& final(config).layout_name == old(config).layout_name
            &&& final(config).container_name == old(config).container_name
            &&& final(config).restart_policy == old(config).restart_policy
            &&& final(config).workdir == old(config).workdir
            &&& final(config).ip_address == old(config).ip_address
            &&& final(config).memory_limit == old(config).memory_limit
            &&& final(config).cpu_limit == old(config).cpu_limit
            &&& final(config).args == old(config).args
            &&& final(config).boot_id == old(config).boot_id
            &&& final(config).is_detached == old(config).is_detached
            &&& final(config).rm == old(config).rm
        },
        !changed ==> *final(config) == *old(config),
{
    if config.status == ContainerStatus::Active && !alive {
        config.status = ContainerStatus::Stopped;
        config.pid = 0;
        true
    } else {
        false
    }
}

/// What `start` does with a container.
#[derive(Debug, Clone, Copy, PartialEq, Eq)]
pub enum StartDecision {
    /// It is active; only stopped containers can be started.
    Refuse,
    /// Start it again detached.
    Detached,
    /// Start it again in the foreground.
    Attached,
}

/// An active container is not started again; another one is, detached or
/// not as it was before.
pub fn start_decision(config: &RuntimeConfig) -> (r: StartDecision)
    ensures
        r == if config.status == ContainerStatus::Active {
            StartDecision::Refuse
        } else if config.is_detached {
            StartDecision::Detached
        } else {
            StartDecision::Attached
        },
{
    if config.status == ContainerStatus::Active {
        StartDecision::Refuse
    } else if config.is_detached {
        StartDecision::Detached
    } else {
        StartDecision::Attached
    }
}

/// Only an active container can be restarted or stopped.
pub fn is_active(config: &RuntimeConfig) -> (r: bool)
    ensures
        r == (config.status == ContainerStatus::Active),
{
    config.status == ContainerStatus::Active
}

/// An active container cannot be deleted.
pub fn can_delete(config: &RuntimeConfig) -> (r: bool)
    ensures
        r == (config.status != ContainerStatus::Active),
{
    config.status != ContainerStatus::Active
}

/// The id of the first container (in the order given) whose name is
/// `name`; `entries` holds (id, container name) pairs.
pub fn find_container_by_name(entries: &Vec<(String, String)>, name: &str) -> (r: Option<String>)
    ensures
        match r {
            Some(id) => exists|i: int|
                0 <= i < entries@.len() && entries@[i].1@ == name@ && entries@[i].0@ == id@ && (
                forall|j: int| 0 <= j < i ==> entries@[j].1@ != name@),
            None => forall|i: int| 0 <= i < entries@.len() ==> entries@[i].1@ != name@,
        },
{
    let mut i: usize = 0;
    while i < entries.len()
        invariant
            i <= entries@.len(),
            forall|j: int| 0 <= j < i ==> entries@[j].1@ != name@,
        decreases entries@.len() - i,
    {
        if str_eq(entries[i].1.as_str(), name) {
            let id = crate::text::string_from(entries[i].0.as_str());
            return Some(id);
        }
        i += 1;
    }
    None
}

/// Whether one of the containers' layouts is `tag`.
pub fn layout_in_use(layouts: &Vec<String>, tag: &str) -> (r: bool)
    ensures
        r == exists|i: int| 0 <= i < layouts@.len() && layouts@[i]@ == tag@,
{
    let mut i: usize = 0;
    while i < layouts.len()
        invariant
            i <= layouts@.len(),
            forall|j: int| 0 <= j < i ==> layouts@[j]@ != tag@,
        decreases layouts@.len() - i,
    {
        if str_eq(layouts[i].as_str(), tag) {
            return true;
        }
        i += 1;
    }
    false
}

} // verus!
