//! Admission: the quota-enforcing operations through which users create,
//! update, start, stop and delete their instances. Every operation validates
//! its request, re-checks the state invariants inside the critical section,
//! and either mutates exactly one user's slice of the state or leaves the
//! state untouched and reports why.

use vstd::prelude::*;

use crate::catalog::{
    image_display, runtime_display, spec_image_of, spec_runtime_of, valid_instance_name,
    verify_instance_name,
};
use crate::errors::{ErrorView, InstanceError};
use crate::model::{
    external_ips_unique, inst_idx, instance_names_unique, instance_wf, lemma_inst_idx,
    lemma_sum_element_le, lemma_sum_nonneg, lemma_sum_push, lemma_sum_take_succ, lemma_sum_update,
    lemma_user_idx,
    state_wf, sum_cpu, sum_disk, sum_memory, user_idx, user_wf, usernames_unique, Image, Instance,
    InstanceStage, InstanceStatus, InstanceView, Node, NodeView, Runtime, State, StateView,
    StatusView, StoragePoolView, User, UserView,
};
use crate::text::string_eq_str;

verus! {

/// A request to create an instance. Empty `node_name` / `storage_pool`
/// leave the placement to the scheduler.
#[derive(Clone, Debug)]
pub struct CreateInstanceRequest {
    pub name: String,
    pub cpu: usize,
    pub memory: usize,
    pub disk_size: usize,
    pub image: String,
    pub runtime: String,
    pub node_name: String,
    pub storage_pool: String,
}

pub ghost struct CreateReqView {
    pub name: Seq<char>,
    pub cpu: int,
    pub memory: int,
    pub disk_size: int,
    pub image: Seq<char>,
    pub runtime: Seq<char>,
    pub node_name: Seq<char>,
    pub storage_pool: Seq<char>,
}

impl View for CreateInstanceRequest {
    type V = CreateReqView;

    open spec fn view(&self) -> CreateReqView {
        CreateReqView {
            name: self.name@,
            cpu: self.cpu as int,
            memory: self.memory as int,
            disk_size: self.disk_size as int,
            image: self.image@,
            runtime: self.runtime@,
            node_name: self.node_name@,
            storage_pool: self.storage_pool@,
        }
    }
}

/// A request to update an instance; absent fields stay as they are.
#[derive(Clone, Debug)]
pub struct UpdateInstanceRequest {
    pub cpu: Option<usize>,
    pub memory: Option<usize>,
    pub runtime: Option<String>,
}

pub ghost struct UpdateReqView {
    pub cpu: Option<int>,
    pub memory: Option<int>,
    pub runtime: Option<Seq<char>>,
}

impl View for UpdateInstanceRequest {
    type V = UpdateReqView;

    open spec fn view(&self) -> UpdateReqView {
        UpdateReqView {
            cpu: match self.cpu {
                Some(c) => Some(c as int),
                None => None,
            },
            memory: match self.memory {
                Some(m) => Some(m as int),
                None => None,
            },
            runtime: match &self.runtime {
                Some(r) => Some(r@),
                None => None,
            },
        }
    }
}

// ---------------------------------------------------------------------------
// Create: request validation.
// ---------------------------------------------------------------------------

/// The error, if any, that the stateless validation of a create request
/// produces, in the order the checks run.
pub open spec fn create_static_error(req: CreateReqView) -> Option<ErrorView> {
    if !valid_instance_name(req.name) {
        Some(ErrorView::InvalidArgs("name"@))
    } else if req.cpu == 0 {
        Some(ErrorView::InvalidArgs("cpu"@))
    } else if req.memory == 0 {
        Some(ErrorView::InvalidArgs("memory"@))
    } else if req.disk_size == 0 {
        Some(ErrorView::InvalidArgs("disk_size"@))
    } else if req.image.len() == 0 {
        Some(ErrorView::InvalidArgs("image"@))
    } else if req.runtime.len() == 0 {
        Some(ErrorView::InvalidArgs("runtime"@))
    } else if spec_image_of(req.image) is None {
        Some(ErrorView::InvalidArgs("image"@))
    } else if spec_runtime_of(req.runtime) is None {
        Some(ErrorView::InvalidArgs("runtime"@))
    } else {
        let image = spec_image_of(req.image)->Some_0;
        let runtime = spec_runtime_of(req.runtime)->Some_0;
        if !runtime.spec_supports_image(image) {
            Some(ErrorView::ImageUnavailable {
                image: image_display(image),
                runtime: runtime_display(runtime),
            })
        } else if req.storage_pool.len() > 0 && runtime.spec_is_pod_based() {
            Some(ErrorView::StoragePoolCannotBeSpecified { runtime: runtime_display(runtime) })
        } else {
            None
        }
    }
}

/// Runs the stateless checks of a create request; on success returns the
/// parsed image and runtime.
pub fn validate_create_request(req: &CreateInstanceRequest) -> (r: Result<
    (Image, Runtime),
    InstanceError,
>)
    ensures
        match r {
            Ok((image, runtime)) => {
                &&& create_static_error(req@) is None
                &&& spec_image_of(req@.image) == Some(image)
                &&& spec_runtime_of(req@.runtime) == Some(runtime)
            },
            Err(e) => create_static_error(req@) == Some(e@),
        },
{
    if !verify_instance_name(req.name.as_str()) {
        return Err(InstanceError::InvalidArgs("name".to_owned()));
    }
    if req.cpu == 0 {
        return Err(InstanceError::InvalidArgs("cpu".to_owned()));
    }
    if req.memory == 0 {
        return Err(InstanceError::InvalidArgs("memory".to_owned()));
    }
    if req.disk_size == 0 {
        return Err(InstanceError::InvalidArgs("disk_size".to_owned()));
    }
    if req.image.as_str().is_empty() {
        return Err(InstanceError::InvalidArgs("image".to_owned()));
    }
    if req.runtime.as_str().is_empty() {
        return Err(InstanceError::InvalidArgs("runtime".to_owned()));
    }
    let image = match Image::parse(req.image.as_str()) {
        Some(i) => i,
        None => {
            return Err(InstanceError::InvalidArgs("image".to_owned()));
        },
    };
    let runtime = match Runtime::parse(req.runtime.as_str()) {
        Some(rt) => rt,
        None => {
            return Err(InstanceError::InvalidArgs("runtime".to_owned()));
        },
    };
    if !runtime.supports_image(&image) {
        return Err(InstanceError::ImageUnavailable {
            image: image.to_string(),
            runtime: runtime.to_string(),
        });
    }
    if !req.storage_pool.as_str().is_empty() && runtime.is_pod_based() {
        return Err(InstanceError::StoragePoolCannotBeSpecified { runtime: runtime.to_string() });
    }
    Ok((image, runtime))
}

// ---------------------------------------------------------------------------
// Create: capacity pre-check against the known nodes.
// ---------------------------------------------------------------------------

pub open spec fn max2(a: int, b: int) -> int {
    if a >= b {
        a
    } else {
        b
    }
}

/// A node is considered at all when the request pins no node or pins this one.
pub open spec fn node_matches_pin(n: NodeView, pin_node: Seq<char>) -> bool {
    pin_node.len() == 0 || n.name == pin_node
}

/// Whether the node carries a pool of the given name.
pub open spec fn node_has_pool_named(n: NodeView, pool: Seq<char>) -> bool {
    exists|j: int| 0 <= j < n.storage_pools.len() && (#[trigger] n.storage_pools[j]).name == pool
}

/// Whether a pool can take `disk` more GiB on top of what is already
/// allocated or used on it.
pub open spec fn pool_fits(p: StoragePoolView, disk: int) -> bool {
    disk + max2(p.allocated, p.used) <= p.total
}

/// Whether some pool on the node (the pinned one, if pinned) fits `disk`.
pub open spec fn node_has_fitting_pool(n: NodeView, disk: int, pin_pool: Seq<char>) -> bool {
    exists|j: int|
        0 <= j < n.storage_pools.len() && (pin_pool.len() == 0 || (
        #[trigger] n.storage_pools[j]).name == pin_pool) && pool_fits(n.storage_pools[j], disk)
}

/// Whether the node can take the requested resources.
pub open spec fn node_fits_create(
    n: NodeView,
    cpu: int,
    memory: int,
    disk: int,
    pin_pool: Seq<char>,
) -> bool {
    &&& cpu + n.cpu_allocated <= n.cpu_total
    &&& memory + n.memory_allocated <= n.memory_total
    &&& disk + max2(n.storage_allocated, n.storage_used) <= n.storage_total
    &&& node_has_fitting_pool(n, disk, pin_pool)
}

/// A node that satisfies every create-time condition: pin match, pool-name
/// match when a pool is pinned, and resource fit.
pub open spec fn node_admits_create(
    n: NodeView,
    cpu: int,
    memory: int,
    disk: int,
    pin_node: Seq<char>,
    pin_pool: Seq<char>,
) -> bool {
    &&& node_matches_pin(n, pin_node)
    &&& (pin_pool.len() == 0 || node_has_pool_named(n, pin_pool))
    &&& node_fits_create(n, cpu, memory, disk, pin_pool)
}

pub open spec fn some_node_admits_create(
    nodes: Seq<NodeView>,
    cpu: int,
    memory: int,
    disk: int,
    pin_node: Seq<char>,
    pin_pool: Seq<char>,
) -> bool {
    exists|k: int|
        0 <= k < nodes.len() && node_admits_create(
            #[trigger] nodes[k],
            cpu,
            memory,
            disk,
            pin_node,
            pin_pool,
        )
}

pub open spec fn some_node_matches_pin(nodes: Seq<NodeView>, pin_node: Seq<char>) -> bool {
    exists|k: int| 0 <= k < nodes.len() && node_matches_pin(#[trigger] nodes[k], pin_node)
}

pub open spec fn some_node_has_pool(
    nodes: Seq<NodeView>,
    pin_node: Seq<char>,
    pin_pool: Seq<char>,
) -> bool {
    exists|k: int|
        0 <= k < nodes.len() && node_matches_pin(#[trigger] nodes[k], pin_node) && (pin_pool.len()
            == 0 || node_has_pool_named(nodes[k], pin_pool))
}

/// The error, if any, of the capacity pre-check: the most specific of
/// an absent pinned node, an absent pinned pool, and exhausted capacity.
pub open spec fn create_capacity_error(
    nodes: Seq<NodeView>,
    cpu: int,
    memory: int,
    disk: int,
    pin_node: Seq<char>,
    pin_pool: Seq<char>,
) -> Option<ErrorView> {
    if some_node_admits_create(nodes, cpu, memory, disk, pin_node, pin_pool) {
        None
    } else if pin_node.len() > 0 && !some_node_matches_pin(nodes, pin_node) {
        Some(ErrorView::UnknownNode(pin_node))
    } else if pin_pool.len() > 0 && !some_node_has_pool(nodes, pin_node, pin_pool) {
        Some(ErrorView::UnknownStoragePool(pin_pool))
    } else {
        Some(ErrorView::ResourceExhausted)
    }
}

fn node_has_pool_named_exec(n: &Node, pool: &str) -> (r: bool)
    ensures
        r == node_has_pool_named(n@, pool@),
{
    let m = n.storage_pools.len();
    let mut j: usize = 0;
    while j < m
        invariant
            0 <= j <= m,
            m == n.storage_pools@.len(),
            n@.storage_pools.len() == m,
            forall|i: int| 0 <= i < j ==> (#[trigger] n@.storage_pools[i]).name != pool@,
        decreases m - j,
    {
        assert(n@.storage_pools[j as int] == n.storage_pools@[j as int]@);
        if string_eq_str(&n.storage_pools[j].name, pool) {
            return true;
        }
        j += 1;
    }
    false
}

fn node_has_fitting_pool_exec(n: &Node, disk: usize, pin_pool: &str) -> (r: bool)
    ensures
        r == node_has_fitting_pool(n@, disk as int, pin_pool@),
{
    let m = n.storage_pools.len();
    let mut j: usize = 0;
    while j < m
        invariant
            0 <= j <= m,
            m == n.storage_pools@.len(),
            n@.storage_pools.len() == m,
            forall|i: int|
                0 <= i < j ==> !((pin_pool@.len() == 0 || (#[trigger] n@.storage_pools[i]).name
                    == pin_pool@) && pool_fits(n@.storage_pools[i], disk as int)),
        decreases m - j,
    {
        assert(n@.storage_pools[j as int] == n.storage_pools@[j as int]@);
        let p = &n.storage_pools[j];
        let name_ok = pin_pool.is_empty() || string_eq_str(&p.name, pin_pool);
        if name_ok {
            let high = if p.allocated >= p.used {
                p.allocated
            } else {
                p.used
            };
            if high <= p.total && disk <= p.total - high {
                return true;
            }
        }
        j += 1;
    }
    false
}

fn node_fits_create_exec(n: &Node, cpu: usize, memory: usize, disk: usize, pin_pool: &str) -> (r:
    bool)
    ensures
        r == node_fits_create(n@, cpu as int, memory as int, disk as int, pin_pool@),
{
    if n.cpu_allocated > n.cpu_total || cpu > n.cpu_total - n.cpu_allocated {
        return false;
    }
    if n.memory_allocated > n.memory_total || memory > n.memory_total - n.memory_allocated {
        return false;
    }
    let high = if n.storage_allocated >= n.storage_used {
        n.storage_allocated
    } else {
        n.storage_used
    };
    if high > n.storage_total || disk > n.storage_total - high {
        return false;
    }
    node_has_fitting_pool_exec(n, disk, pin_pool)
}

/// Checks that some node could take the requested instance, reporting the
/// most specific failure.
pub fn check_create_capacity(
    nodes: &Vec<Node>,
    cpu: usize,
    memory: usize,
    disk: usize,
    pin_node: &str,
    pin_pool: &str,
) -> (r: Option<InstanceError>)
    ensures
        ({
            let spec = create_capacity_error(
                nodes@.map_values(|n: Node| n@),
                cpu as int,
                memory as int,
                disk as int,
                pin_node@,
                pin_pool@,
            );
            match r {
                Some(e) => spec == Some(e@),
                None => spec is None,
            }
        }),
{
    let ghost nodesv = nodes@.map_values(|n: Node| n@);
    let m = nodes.len();
    let mut node_exists = false;
    let mut pool_exists = false;
    let mut k: usize = 0;
    while k < m
        invariant
            0 <= k <= m,
            m == nodes@.len(),
            nodesv == nodes@.map_values(|n: Node| n@),
            nodesv.len() == m,
            node_exists == exists|i: int|
                0 <= i < k && node_matches_pin(#[trigger] nodesv[i], pin_node@),
            pool_exists == exists|i: int|
                0 <= i < k && node_matches_pin(#[trigger] nodesv[i], pin_node@) && (pin_pool@.len()
                    == 0 || node_has_pool_named(nodesv[i], pin_pool@)),
            forall|i: int|
                0 <= i < k ==> !node_admits_create(
                    #[trigger] nodesv[i],
                    cpu as int,
                    memory as int,
                    disk as int,
                    pin_node@,
                    pin_pool@,
                ),
        decreases m - k,
    {
        assert(nodesv[k as int] == nodes@[k as int]@);
        let n = &nodes[k];
        let pin_match = pin_node.is_empty() || string_eq_str(&n.name, pin_node);
        if pin_match {
            node_exists = true;
            let pool_match = pin_pool.is_empty() || node_has_pool_named_exec(n, pin_pool);
            if pool_match {
                pool_exists = true;
                if node_fits_create_exec(n, cpu, memory, disk, pin_pool) {
                    return None;
                }
            }
        }
        k += 1;
    }
    if !pin_node.is_empty() && !node_exists {
        Some(InstanceError::UnknownNode(pin_node.to_owned()))
    } else if !pin_pool.is_empty() && !pool_exists {
        Some(InstanceError::UnknownStoragePool(pin_pool.to_owned()))
    } else {
        Some(InstanceError::ResourceExhausted)
    }
}

// ---------------------------------------------------------------------------
// Create: per-user quota check.
// ---------------------------------------------------------------------------

/// The error, if any, of the per-user checks: instance count, duplicate
/// name, then the cpu, memory and disk quotas, in that order.
pub open spec fn create_quota_error(u: UserView, req: CreateReqView) -> Option<ErrorView> {
    if u.instances.len() + 1 > u.instance_quota {
        Some(ErrorView::QuotaExceeded {
            resource: "Instance"@,
            quota: u.instance_quota,
            remaining: u.instance_quota - u.instances.len(),
            requested: 1,
            unit: ""@,
        })
    } else if inst_idx(u.instances, req.name) != -1 {
        Some(ErrorView::AlreadyExists)
    } else if sum_cpu(u.instances) + req.cpu > u.cpu_quota {
        Some(ErrorView::QuotaExceeded {
            resource: "CPU"@,
            quota: u.cpu_quota,
            remaining: u.cpu_quota - sum_cpu(u.instances),
            requested: req.cpu,
            unit: "C"@,
        })
    } else if sum_memory(u.instances) + req.memory > u.memory_quota {
        Some(ErrorView::QuotaExceeded {
            resource: "Memory"@,
            quota: u.memory_quota,
            remaining: u.memory_quota - sum_memory(u.instances),
            requested: req.memory,
            unit: "GiB"@,
        })
    } else if sum_disk(u.instances) + req.disk_size > u.disk_quota {
        Some(ErrorView::QuotaExceeded {
            resource: "Disk size"@,
            quota: u.disk_quota,
            remaining: u.disk_quota - sum_disk(u.instances),
            requested: req.disk_size,
            unit: "GiB"@,
        })
    } else {
        None
    }
}

/// Sums the resources of a user's instances; safe because a well-formed
/// user's sums stay within the (machine-sized) quotas.
fn sum_user_resources(u: &User) -> (r: (usize, usize, usize))
    requires
        user_wf(u@),
    ensures
        r.0 == sum_cpu(u@.instances),
        r.1 == sum_memory(u@.instances),
        r.2 == sum_disk(u@.instances),
{
    let ghost insts = u@.instances;
    let n = u.instances.len();
    let mut cpu: usize = 0;
    let mut memory: usize = 0;
    let mut disk: usize = 0;
    let mut k: usize = 0;
    proof {
        assert(insts.take(0) =~= Seq::<InstanceView>::empty());
    }
    while k < n
        invariant
            0 <= k <= n,
            n == u.instances@.len(),
            insts == u@.instances,
            user_wf(u@),
            insts.len() == n,
            cpu == sum_cpu(insts.take(k as int)),
            memory == sum_memory(insts.take(k as int)),
            disk == sum_disk(insts.take(k as int)),
        decreases n - k,
    {
        proof {
            lemma_sum_take_succ(insts, k as int);
            crate::model::lemma_sum_split(insts, k as int + 1);
            assert(forall|j: int|
                0 <= j < insts.skip(k as int + 1).len() ==> (#[trigger] insts.skip(
                    k as int + 1,
                )[j]) == insts[j + k + 1]);
            lemma_sum_nonneg(insts.skip(k as int + 1));
        }
        assert(u@.instances[k as int] == u.instances@[k as int]@);
        cpu = cpu + u.instances[k].cpu;
        memory = memory + u.instances[k].memory;
        disk = disk + u.instances[k].disk_size;
        k += 1;
    }
    proof {
        assert(insts.take(n as int) =~= insts);
    }
    (cpu, memory, disk)
}

/// Checks the per-user quotas for a create request.
fn check_create_quota(u: &User, req: &CreateInstanceRequest) -> (r: Option<InstanceError>)
    requires
        user_wf(u@),
    ensures
        match r {
            Some(e) => create_quota_error(u@, req@) == Some(e@),
            None => create_quota_error(u@, req@) is None,
        },
{
    if u.instances.len() >= u.instance_quota {
        return Some(InstanceError::QuotaExceeded {
            resource: "Instance".to_owned(),
            quota: u.instance_quota,
            remaining: u.instance_quota - u.instances.len(),
            requested: 1,
            unit: "".to_owned(),
        });
    }
    if u.find_mut_instance(req.name.as_str()).is_some() {
        return Some(InstanceError::AlreadyExists);
    }
    let (cpu, memory, disk) = sum_user_resources(u);
    if req.cpu > u.cpu_quota - cpu {
        return Some(InstanceError::QuotaExceeded {
            resource: "CPU".to_owned(),
            quota: u.cpu_quota,
            remaining: u.cpu_quota - cpu,
            requested: req.cpu,
            unit: "C".to_owned(),
        });
    }
    if req.memory > u.memory_quota - memory {
        return Some(InstanceError::QuotaExceeded {
            resource: "Memory".to_owned(),
            quota: u.memory_quota,
            remaining: u.memory_quota - memory,
            requested: req.memory,
            unit: "GiB".to_owned(),
        });
    }
    if req.disk_size > u.disk_quota - disk {
        return Some(InstanceError::QuotaExceeded {
            resource: "Disk size".to_owned(),
            quota: u.disk_quota,
            remaining: u.disk_quota - disk,
            requested: req.disk_size,
            unit: "GiB".to_owned(),
        });
    }
    None
}

// ---------------------------------------------------------------------------
// Create: the operation.
// ---------------------------------------------------------------------------

/// The record admission appends for an accepted create request: desired
/// stage Running, observed status Creating, no placement beyond what the
/// request pinned.
pub open spec fn new_instance_view(req: CreateReqView, password: Seq<char>) -> InstanceView {
    InstanceView {
        name: req.name,
        cpu: req.cpu,
        memory: req.memory,
        disk_size: req.disk_size,
        image: spec_image_of(req.image)->Some_0,
        hostname: req.name,
        ssh_host: None,
        ssh_port: None,
        password: password,
        stage: InstanceStage::Running,
        status: StatusView::Creating,
        internal_ip: None,
        external_ip: None,
        runtime: spec_runtime_of(req.runtime)->Some_0,
        node_name: if req.node_name.len() == 0 {
            None
        } else {
            Some(req.node_name)
        },
        storage_pool: if req.storage_pool.len() == 0 {
            None
        } else {
            Some(req.storage_pool)
        },
    }
}

/// The user after an accepted create request: the same user with the new
/// instance appended.
pub open spec fn user_after_create(u: UserView, req: CreateReqView, password: Seq<char>) -> UserView {
    UserView { instances: u.instances.push(new_instance_view(req, password)), ..u }
}

/// Everything a create operation may do, as a relation between the state
/// before, the state after, and the result: each rejection leaves the state
/// unchanged and reports the first failing check; acceptance appends
/// exactly one instance to the requesting user.
pub open spec fn create_outcome(
    pre: StateView,
    username: Seq<char>,
    req: CreateReqView,
    password: Seq<char>,
    post: StateView,
    r: Result<bool, ErrorView>,
) -> bool {
    let uidx = user_idx(pre.users, username);
    match create_static_error(req) {
        Some(e) => r == Err::<bool, ErrorView>(e) && post == pre,
        None => match create_capacity_error(
            pre.nodes,
            req.cpu,
            req.memory,
            req.disk_size,
            req.node_name,
            req.storage_pool,
        ) {
            Some(e) => r == Err::<bool, ErrorView>(e) && post == pre,
            None => if uidx == -1 {
                r == Ok::<bool, ErrorView>(false) && post == pre
            } else {
                match create_quota_error(pre.users[uidx], req) {
                    Some(e) => r == Err::<bool, ErrorView>(e) && post == pre,
                    None => {
                        &&& r == Ok::<bool, ErrorView>(true)
                        &&& post.nodes == pre.nodes
                        &&& post.users == pre.users.update(
                            uidx,
                            user_after_create(pre.users[uidx], req, password),
                        )
                    },
                }
            },
        },
    }
}

/// The view of an admission result.
pub open spec fn result_view(r: Result<bool, InstanceError>) -> Result<bool, ErrorView> {
    match r {
        Ok(b) => Ok(b),
        Err(e) => Err(e@),
    }
}

proof fn lemma_ips_unique_after_push(users: Seq<UserView>, uidx: int, u2: UserView)
    requires
        external_ips_unique(users),
        0 <= uidx < users.len(),
        u2.instances.len() == users[uidx].instances.len() + 1,
        forall|j: int|
            0 <= j < users[uidx].instances.len() ==> #[trigger] u2.instances[j]
                == users[uidx].instances[j],
        u2.instances.last().external_ip is None,
    ensures
        external_ips_unique(users.update(uidx, u2)),
{
    let post = users.update(uidx, u2);
    assert forall|u1: int, i1: int, v2: int, i2: int|
        {
            &&& 0 <= u1 < post.len()
            &&& 0 <= i1 < post[u1].instances.len()
            &&& 0 <= v2 < post.len()
            &&& 0 <= i2 < post[v2].instances.len()
            &&& (u1 != v2 || i1 != i2)
            &&& (#[trigger] post[u1].instances[i1]).external_ip is Some
        } implies post[u1].instances[i1].external_ip != (
    #[trigger] post[v2].instances[i2]).external_ip by {
        let newi = users[uidx].instances.len() as int;
        if u1 == uidx && i1 == newi {
            assert(post[u1].instances[i1] == u2.instances.last());
            assert(false);
        } else {
            assert(post[u1].instances[i1] == users[u1].instances[i1]);
            if v2 == uidx && i2 == newi {
                assert(post[v2].instances[i2] == u2.instances.last());
                assert(post[v2].instances[i2].external_ip is None);
            } else {
                assert(post[v2].instances[i2] == users[v2].instances[i2]);
            }
        }
    }
}

/// Creates an instance for `username` with the given generated password.
/// Rejections leave the state unchanged; acceptance appends the instance
/// with desired stage Running and observed status Creating.
pub fn create_instance_with_password(
    state: &mut State,
    username: &str,
    req: &CreateInstanceRequest,
    password: String,
) -> (r: Result<bool, InstanceError>)
    requires
        state_wf(old(state)@),
    ensures
        state_wf(final(state)@),
        create_outcome(old(state)@, username@, req@, password@, final(state)@, result_view(r)),
{
    let (image, runtime) = match validate_create_request(req) {
        Ok(p) => p,
        Err(e) => {
            return Err(e);
        },
    };
    if let Some(e) = check_create_capacity(
        &state.nodes,
        req.cpu,
        req.memory,
        req.disk_size,
        req.node_name.as_str(),
        req.storage_pool.as_str(),
    ) {
        return Err(e);
    }
    let uidx = match state.find_mut_user(username) {
        Some(k) => k,
        None => {
            proof {
                lemma_user_idx(state@.users, username@);
            }
            return Ok(false);
        },
    };
    proof {
        lemma_user_idx(state@.users, username@);
        assert(state@.users[uidx as int] == state.users@[uidx as int]@);
    }
    if let Some(e) = check_create_quota(&state.users[uidx], req) {
        return Err(e);
    }
    let instance = Instance {
        name: req.name.clone(),
        cpu: req.cpu,
        memory: req.memory,
        disk_size: req.disk_size,
        image,
        hostname: req.name.clone(),
        ssh_host: None,
        ssh_port: None,
        password,
        stage: InstanceStage::Running,
        status: InstanceStatus::Creating,
        internal_ip: None,
        external_ip: None,
        runtime,
        node_name: if req.node_name.as_str().is_empty() {
            None
        } else {
            Some(req.node_name.clone())
        },
        storage_pool: if req.storage_pool.as_str().is_empty() {
            None
        } else {
            Some(req.storage_pool.clone())
        },
    };
    let ghost instv = instance@;
    let ghost prev = old(state)@;
    let ghost preu = prev.users[uidx as int];
    proof {
        assert(instv == new_instance_view(req@, password@));
    }
    let user = &mut state.users[uidx];
    user.instances.push(instance);
    proof {
        let postu = state@.users[uidx as int];
        assert(state.users@[uidx as int]@.instances =~= preu.instances.push(instv));
        assert(postu == user_after_create(preu, req@, password@));
        assert(state@.users =~= prev.users.update(uidx as int, postu));
        assert(state@.nodes =~= prev.nodes);

        // Well-formedness is preserved: the new instance passed every check.
        lemma_sum_push(preu.instances, instv);
        lemma_inst_idx(preu.instances, req@.name);
        assert(instance_names_unique(postu.instances)) by {
            assert(forall|j: int|
                0 <= j < preu.instances.len() ==> #[trigger] postu.instances[j]
                    == preu.instances[j]);
            assert(postu.instances.last().name == req@.name);
        }
        assert(user_wf(postu)) by {
            assert(forall|j: int|
                0 <= j < preu.instances.len() ==> #[trigger] postu.instances[j]
                    == preu.instances[j]);
            assert(postu.instances.last() == instv);
        }
        assert(forall|k: int|
            0 <= k < state@.users.len() ==> user_wf(#[trigger] state@.users[k]));
        assert(usernames_unique(state@.users)) by {
            assert(forall|k: int|
                0 <= k < state@.users.len() ==> (#[trigger] state@.users[k]).username
                    == prev.users[k].username);
        }
        lemma_ips_unique_after_push(prev.users, uidx as int, postu);
        assert(state_wf(state@));
    }
    Ok(true)
}

/// Creates an instance for `username`, generating its sixteen-character
/// alphanumeric password.
pub fn create_instance(state: &mut State, username: &str, req: &CreateInstanceRequest) -> (r:
    Result<bool, InstanceError>)
    requires
        state_wf(old(state)@),
    ensures
        state_wf(final(state)@),
        exists|password: Seq<char>|
            #[trigger] crate::random::is_password(password) && create_outcome(
                old(state)@,
                username@,
                req@,
                password,
                final(state)@,
                result_view(r),
            ),
{
    let password = crate::random::random_password();
    let ghost pw = password@;
    let r = create_instance_with_password(state, username, req, password);
    proof {
        assert(crate::random::is_password(pw) && create_outcome(
            old(state)@,
            username@,
            req@,
            pw,
            state@,
            result_view(r),
        ));
    }
    r
}

// ---------------------------------------------------------------------------
// Delete, start, stop.
// ---------------------------------------------------------------------------

/// The state after replacing one instance of one user.
pub open spec fn state_with_instance(
    pre: StateView,
    uidx: int,
    iidx: int,
    newi: InstanceView,
) -> StateView {
    StateView {
        users: pre.users.update(
            uidx,
            UserView {
                instances: pre.users[uidx].instances.update(iidx, newi),
                ..pre.users[uidx]
            },
        ),
        ..pre
    }
}

/// Replacing one instance by one with the same name, resources and external
/// IP keeps the state well-formed.
pub proof fn lemma_wf_after_instance_update(pre: StateView, uidx: int, iidx: int, newi: InstanceView)
    requires
        state_wf(pre),
        0 <= uidx < pre.users.len(),
        0 <= iidx < pre.users[uidx].instances.len(),
        newi.name == pre.users[uidx].instances[iidx].name,
        newi.cpu == pre.users[uidx].instances[iidx].cpu,
        newi.memory == pre.users[uidx].instances[iidx].memory,
        newi.disk_size == pre.users[uidx].instances[iidx].disk_size,
        newi.external_ip == pre.users[uidx].instances[iidx].external_ip,
        instance_wf(newi),
    ensures
        state_wf(state_with_instance(pre, uidx, iidx, newi)),
{
    let post = state_with_instance(pre, uidx, iidx, newi);
    let oldu = pre.users[uidx];
    let newu = post.users[uidx];
    lemma_sum_update(oldu.instances, iidx, newi);
    assert(user_wf(newu)) by {
        assert(forall|j: int|
            0 <= j < oldu.instances.len() && j != iidx ==> #[trigger] newu.instances[j]
                == oldu.instances[j]);
        assert(newu.instances[iidx] == newi);
    }
    assert(forall|k: int| 0 <= k < post.users.len() ==> user_wf(#[trigger] post.users[k]));
    assert(usernames_unique(post.users)) by {
        assert(forall|k: int|
            0 <= k < post.users.len() ==> (#[trigger] post.users[k]).username
                == pre.users[k].username);
    }
    assert(external_ips_unique(post.users)) by {
        assert forall|u1: int, i1: int, u2: int, i2: int|
            {
                &&& 0 <= u1 < post.users.len()
                &&& 0 <= i1 < post.users[u1].instances.len()
                &&& 0 <= u2 < post.users.len()
                &&& 0 <= i2 < post.users[u2].instances.len()
                &&& (u1 != u2 || i1 != i2)
                &&& (#[trigger] post.users[u1].instances[i1]).external_ip is Some
            } implies post.users[u1].instances[i1].external_ip != (
        #[trigger] post.users[u2].instances[i2]).external_ip by {
            assert(post.users[u1].instances[i1].external_ip
                == pre.users[u1].instances[i1].external_ip);
            assert(post.users[u2].instances[i2].external_ip
                == pre.users[u2].instances[i2].external_ip);
        }
    }
}

/// What a delete request does: an existing instance that is not already
/// deleted moves to desired stage Deleted, with observed status Deleting
/// for pod-based runtimes and Stopping for the others (those must stop
/// before they can be destroyed); anything else is a no-op.
pub open spec fn delete_outcome(
    pre: StateView,
    username: Seq<char>,
    name: Seq<char>,
    post: StateView,
    changed: bool,
) -> bool {
    let uidx = user_idx(pre.users, username);
    if uidx == -1 {
        !changed && post == pre
    } else {
        let iidx = inst_idx(pre.users[uidx].instances, name);
        if iidx == -1 {
            !changed && post == pre
        } else {
            let i = pre.users[uidx].instances[iidx];
            if i.stage == InstanceStage::Deleted {
                !changed && post == pre
            } else {
                changed && post == state_with_instance(
                    pre,
                    uidx,
                    iidx,
                    InstanceView {
                        stage: InstanceStage::Deleted,
                        status: if i.runtime.spec_is_pod_based() {
                            StatusView::Deleting
                        } else {
                            StatusView::Stopping
                        },
                        ..i
                    },
                )
            }
        }
    }
}

/// Marks an instance for deletion. Returns whether the state changed.
pub fn delete_instance(state: &mut State, username: &str, instance_name: &str) -> (changed: bool)
    requires
        state_wf(old(state)@),
    ensures
        state_wf(final(state)@),
        delete_outcome(old(state)@, username@, instance_name@, final(state)@, changed),
{
    let ghost prev = old(state)@;
    let uidx = match state.find_mut_user(username) {
        Some(k) => k,
        None => {
            return false;
        },
    };
    proof {
        lemma_user_idx(state@.users, username@);
        assert(state@.users[uidx as int] == state.users@[uidx as int]@);
    }
    let iidx = match state.users[uidx].find_mut_instance(instance_name) {
        Some(k) => k,
        None => {
            proof {
                lemma_inst_idx(state@.users[uidx as int].instances, instance_name@);
            }
            return false;
        },
    };
    proof {
        lemma_inst_idx(state@.users[uidx as int].instances, instance_name@);
        assert(state@.users[uidx as int].instances[iidx as int]
            == state.users@[uidx as int].instances@[iidx as int]@);
    }
    if matches!(state.users[uidx].instances[iidx].stage, InstanceStage::Deleted) {
        return false;
    }
    let ghost previ = prev.users[uidx as int].instances[iidx as int];
    let pod_based = state.users[uidx].instances[iidx].runtime.is_pod_based();
    let instance = &mut state.users[uidx].instances[iidx];
    instance.stage = InstanceStage::Deleted;
    if pod_based {
        instance.status = InstanceStatus::Deleting;
    } else {
        instance.status = InstanceStatus::Stopping;
    }
    proof {
        let newi = state@.users[uidx as int].instances[iidx as int];
        assert(state@.users[uidx as int].instances =~= prev.users[uidx as int].instances.update(
            iidx as int,
            newi,
        ));
        assert(state@.users =~= state_with_instance(prev, uidx as int, iidx as int, newi).users);
        assert(state@ == state_with_instance(prev, uidx as int, iidx as int, newi));
        assert(newi == InstanceView {
            stage: InstanceStage::Deleted,
            status: if previ.runtime.spec_is_pod_based() {
                StatusView::Deleting
            } else {
                StatusView::Stopping
            },
            ..previ
        });
        lemma_wf_after_instance_update(prev, uidx as int, iidx as int, newi);
    }
    true
}

/// What a start request does: a deleted instance is rejected; one whose
/// desired stage is not Running moves to stage Running with observed status
/// Starting; the rest is a no-op.
pub open spec fn start_outcome(
    pre: StateView,
    username: Seq<char>,
    name: Seq<char>,
    post: StateView,
    r: Result<bool, ErrorView>,
) -> bool {
    let uidx = user_idx(pre.users, username);
    if uidx == -1 {
        r == Ok::<bool, ErrorView>(false) && post == pre
    } else {
        let iidx = inst_idx(pre.users[uidx].instances, name);
        if iidx == -1 {
            r == Ok::<bool, ErrorView>(false) && post == pre
        } else {
            let i = pre.users[uidx].instances[iidx];
            if i.stage == InstanceStage::Deleted {
                r == Err::<bool, ErrorView>(ErrorView::AlreadyDeleted) && post == pre
            } else if i.stage != InstanceStage::Running {
                r == Ok::<bool, ErrorView>(true) && post == state_with_instance(
                    pre,
                    uidx,
                    iidx,
                    InstanceView {
                        stage: InstanceStage::Running,
                        status: StatusView::Starting,
                        ..i
                    },
                )
            } else {
                r == Ok::<bool, ErrorView>(false) && post == pre
            }
        }
    }
}

/// Asks for an instance to be running.
pub fn start_instance(state: &mut State, username: &str, instance_name: &str) -> (r: Result<
    bool,
    InstanceError,
>)
    requires
        state_wf(old(state)@),
    ensures
        state_wf(final(state)@),
        start_outcome(old(state)@, username@, instance_name@, final(state)@, result_view(r)),
{
    let ghost prev = old(state)@;
    let uidx = match state.find_mut_user(username) {
        Some(k) => k,
        None => {
            return Ok(false);
        },
    };
    proof {
        lemma_user_idx(state@.users, username@);
        assert(state@.users[uidx as int] == state.users@[uidx as int]@);
    }
    let iidx = match state.users[uidx].find_mut_instance(instance_name) {
        Some(k) => k,
        None => {
            proof {
                lemma_inst_idx(state@.users[uidx as int].instances, instance_name@);
            }
            return Ok(false);
        },
    };
    proof {
        lemma_inst_idx(state@.users[uidx as int].instances, instance_name@);
        assert(state@.users[uidx as int].instances[iidx as int]
            == state.users@[uidx as int].instances@[iidx as int]@);
    }
    if matches!(state.users[uidx].instances[iidx].stage, InstanceStage::Deleted) {
        return Err(InstanceError::AlreadyDeleted);
    }
    if matches!(state.users[uidx].instances[iidx].stage, InstanceStage::Running) {
        return Ok(false);
    }
    let ghost previ = prev.users[uidx as int].instances[iidx as int];
    let instance = &mut state.users[uidx].instances[iidx];
    instance.stage = InstanceStage::Running;
    instance.status = InstanceStatus::Starting;
    proof {
        let newi = state@.users[uidx as int].instances[iidx as int];
        assert(state@.users[uidx as int].instances =~= prev.users[uidx as int].instances.update(
            iidx as int,
            newi,
        ));
        assert(state@.users =~= state_with_instance(prev, uidx as int, iidx as int, newi).users);
        assert(state@ == state_with_instance(prev, uidx as int, iidx as int, newi));
        assert(newi == InstanceView {
            stage: InstanceStage::Running,
            status: StatusView::Starting,
            ..previ
        });
        lemma_wf_after_instance_update(prev, uidx as int, iidx as int, newi);
    }
    Ok(true)
}

/// What a stop request does, symmetric to starting: a deleted instance is
/// rejected; one whose desired stage is not Stopped moves to stage Stopped
/// with observed status Stopping; the rest is a no-op.
pub open spec fn stop_outcome(
    pre: StateView,
    username: Seq<char>,
    name: Seq<char>,
    post: StateView,
    r: Result<bool, ErrorView>,
) -> bool {
    let uidx = user_idx(pre.users, username);
    if uidx == -1 {
        r == Ok::<bool, ErrorView>(false) && post == pre
    } else {
        let iidx = inst_idx(pre.users[uidx].instances, name);
        if iidx == -1 {
            r == Ok::<bool, ErrorView>(false) && post == pre
        } else {
            let i = pre.users[uidx].instances[iidx];
            if i.stage == InstanceStage::Deleted {
                r == Err::<bool, ErrorView>(ErrorView::AlreadyDeleted) && post == pre
            } else if i.stage != InstanceStage::Stopped {
                r == Ok::<bool, ErrorView>(true) && post == state_with_instance(
                    pre,
                    uidx,
                    iidx,
                    InstanceView {
                        stage: InstanceStage::Stopped,
                        status: StatusView::Stopping,
                        ..i
                    },
                )
            } else {
                r == Ok::<bool, ErrorView>(false) && post == pre
            }
        }
    }
}

/// Asks for an instance to be stopped.
pub fn stop_instance(state: &mut State, username: &str, instance_name: &str) -> (r: Result<
    bool,
    InstanceError,
>)
    requires
        state_wf(old(state)@),
    ensures
        state_wf(final(state)@),
        stop_outcome(old(state)@, username@, instance_name@, final(state)@, result_view(r)),
{
    let ghost prev = old(state)@;
    let uidx = match state.find_mut_user(username) {
        Some(k) => k,
        None => {
            return Ok(false);
        },
    };
    proof {
        lemma_user_idx(state@.users, username@);
        assert(state@.users[uidx as int] == state.users@[uidx as int]@);
    }
    let iidx = match state.users[uidx].find_mut_instance(instance_name) {
        Some(k) => k,
        None => {
            proof {
                lemma_inst_idx(state@.users[uidx as int].instances, instance_name@);
            }
            return Ok(false);
        },
    };
    proof {
        lemma_inst_idx(state@.users[uidx as int].instances, instance_name@);
        assert(state@.users[uidx as int].instances[iidx as int]
            == state.users@[uidx as int].instances@[iidx as int]@);
    }
    if matches!(state.users[uidx].instances[iidx].stage, InstanceStage::Deleted) {
        return Err(InstanceError::AlreadyDeleted);
    }
    if matches!(state.users[uidx].instances[iidx].stage, InstanceStage::Stopped) {
        return Ok(false);
    }
    let ghost previ = prev.users[uidx as int].instances[iidx as int];
    let instance = &mut state.users[uidx].instances[iidx];
    instance.stage = InstanceStage::Stopped;
    instance.status = InstanceStatus::Stopping;
    proof {
        let newi = state@.users[uidx as int].instances[iidx as int];
        assert(state@.users[uidx as int].instances =~= prev.users[uidx as int].instances.update(
            iidx as int,
            newi,
        ));
        assert(state@.users =~= state_with_instance(prev, uidx as int, iidx as int, newi).users);
        assert(state@ == state_with_instance(prev, uidx as int, iidx as int, newi));
        assert(newi == InstanceView {
            stage: InstanceStage::Stopped,
            status: StatusView::Stopping,
            ..previ
        });
        lemma_wf_after_instance_update(prev, uidx as int, iidx as int, newi);
    }
    Ok(true)
}

// ---------------------------------------------------------------------------
// Update.
// ---------------------------------------------------------------------------

/// The error, if any, of the stateless checks of an update request: an
/// explicit zero is malformed, and a given runtime must parse. The rejected
/// runtime string itself names the bad argument, as the API reports it.
pub open spec fn update_static_error(req: UpdateReqView) -> Option<ErrorView> {
    if req.cpu == Some(0int) {
        Some(ErrorView::InvalidArgs("cpu"@))
    } else if req.memory == Some(0int) {
        Some(ErrorView::InvalidArgs("memory"@))
    } else if req.runtime is Some && spec_runtime_of(req.runtime->Some_0) is None {
        Some(ErrorView::InvalidArgs(req.runtime->Some_0))
    } else {
        None
    }
}

/// The instance after an accepted update: the given fields replaced, the
/// rest unchanged.
pub open spec fn instance_after_update(i: InstanceView, req: UpdateReqView) -> InstanceView {
    InstanceView {
        cpu: match req.cpu {
            Some(c) => c,
            None => i.cpu,
        },
        memory: match req.memory {
            Some(m) => m,
            None => i.memory,
        },
        runtime: match req.runtime {
            Some(rs) => spec_runtime_of(rs)->Some_0,
            None => i.runtime,
        },
        ..i
    }
}

/// What an update request does: it requires the instance to exist (a
/// missing one is reported not found), not be deleted, and be observed
/// Stopped; re-checks the cpu and memory quotas
/// against the user's other instances; accepts a runtime change only
/// between compatible runtimes; and then updates the record in place.
pub open spec fn update_outcome(
    pre: StateView,
    username: Seq<char>,
    name: Seq<char>,
    req: UpdateReqView,
    post: StateView,
    r: Result<bool, ErrorView>,
) -> bool {
    match update_static_error(req) {
        Some(e) => r == Err::<bool, ErrorView>(e) && post == pre,
        None => {
            let uidx = user_idx(pre.users, username);
            if uidx == -1 {
                r == Ok::<bool, ErrorView>(false) && post == pre
            } else {
                let u = pre.users[uidx];
                let iidx = inst_idx(u.instances, name);
                if iidx == -1 {
                    r == Err::<bool, ErrorView>(ErrorView::InstanceNotFound) && post == pre
                } else {
                    let i = u.instances[iidx];
                    let others_cpu = sum_cpu(u.instances) - i.cpu;
                    let others_memory = sum_memory(u.instances) - i.memory;
                    if i.stage == InstanceStage::Deleted {
                        r == Err::<bool, ErrorView>(ErrorView::AlreadyDeleted) && post == pre
                    } else if i.status != StatusView::Stopped {
                        r == Err::<bool, ErrorView>(ErrorView::NotYetStopped) && post == pre
                    } else if req.cpu is Some && others_cpu + req.cpu->Some_0 > u.cpu_quota {
                        r == Err::<bool, ErrorView>(ErrorView::QuotaExceeded {
                            resource: "CPU"@,
                            quota: u.cpu_quota,
                            remaining: u.cpu_quota - others_cpu,
                            requested: req.cpu->Some_0,
                            unit: "C"@,
                        }) && post == pre
                    } else if req.memory is Some && others_memory + req.memory->Some_0
                        > u.memory_quota {
                        r == Err::<bool, ErrorView>(ErrorView::QuotaExceeded {
                            resource: "Memory"@,
                            quota: u.memory_quota,
                            remaining: u.memory_quota - others_memory,
                            requested: req.memory->Some_0,
                            unit: "GiB"@,
                        }) && post == pre
                    } else if req.runtime is Some && !i.runtime.spec_compatiable_with(
                        spec_runtime_of(req.runtime->Some_0)->Some_0,
                    ) {
                        r == Err::<bool, ErrorView>(ErrorView::RuntimeIncompatible {
                            current: runtime_display(i.runtime),
                            target: runtime_display(spec_runtime_of(req.runtime->Some_0)->Some_0),
                        }) && post == pre
                    } else {
                        r == Ok::<bool, ErrorView>(true) && post == state_with_instance(
                            pre,
                            uidx,
                            iidx,
                            instance_after_update(i, req),
                        )
                    }
                }
            }
        },
    }
}

/// Updates an instance's cpu, memory or runtime while it is stopped.
#[verifier::rlimit(60)]
pub fn update_instance(
    state: &mut State,
    username: &str,
    instance_name: &str,
    req: &UpdateInstanceRequest,
) -> (r: Result<bool, InstanceError>)
    requires
        state_wf(old(state)@),
    ensures
        state_wf(final(state)@),
        update_outcome(
            old(state)@,
            username@,
            instance_name@,
            req@,
            final(state)@,
            result_view(r),
        ),
{
    let ghost prev = old(state)@;
    if let Some(0) = req.cpu {
        return Err(InstanceError::InvalidArgs("cpu".to_owned()));
    }
    if let Some(0) = req.memory {
        return Err(InstanceError::InvalidArgs("memory".to_owned()));
    }
    let new_runtime: Option<Runtime> = match &req.runtime {
        Some(rs) => match Runtime::parse(rs.as_str()) {
            Some(rt) => Some(rt),
            None => {
                return Err(InstanceError::InvalidArgs(rs.clone()));
            },
        },
        None => None,
    };
    let uidx = match state.find_mut_user(username) {
        Some(k) => k,
        None => {
            return Ok(false);
        },
    };
    proof {
        lemma_user_idx(state@.users, username@);
        assert(state@.users[uidx as int] == state.users@[uidx as int]@);
    }
    let iidx = match state.users[uidx].find_mut_instance(instance_name) {
        Some(k) => k,
        None => {
            proof {
                lemma_inst_idx(state@.users[uidx as int].instances, instance_name@);
            }
            return Err(InstanceError::InstanceNotFound);
        },
    };
    proof {
        lemma_inst_idx(state@.users[uidx as int].instances, instance_name@);
        assert(state@.users[uidx as int].instances[iidx as int]
            == state.users@[uidx as int].instances@[iidx as int]@);
    }
    if matches!(state.users[uidx].instances[iidx].stage, InstanceStage::Deleted) {
        return Err(InstanceError::AlreadyDeleted);
    }
    if !state.users[uidx].instances[iidx].status.eq_status(&InstanceStatus::Stopped) {
        return Err(InstanceError::NotYetStopped);
    }
    let (total_cpu, total_memory, _) = sum_user_resources(&state.users[uidx]);
    proof {
        lemma_sum_element_le(state@.users[uidx as int].instances, iidx as int);
    }
    let others_cpu = total_cpu - state.users[uidx].instances[iidx].cpu;
    let others_memory = total_memory - state.users[uidx].instances[iidx].memory;
    let u_cpu_quota = state.users[uidx].cpu_quota;
    let u_memory_quota = state.users[uidx].memory_quota;
    if let Some(cpu) = req.cpu {
        if cpu > u_cpu_quota - others_cpu {
            return Err(InstanceError::QuotaExceeded {
                resource: "CPU".to_owned(),
                quota: u_cpu_quota,
                remaining: u_cpu_quota - others_cpu,
                requested: cpu,
                unit: "C".to_owned(),
            });
        }
    }
    if let Some(memory) = req.memory {
        if memory > u_memory_quota - others_memory {
            return Err(InstanceError::QuotaExceeded {
                resource: "Memory".to_owned(),
                quota: u_memory_quota,
                remaining: u_memory_quota - others_memory,
                requested: memory,
                unit: "GiB".to_owned(),
            });
        }
    }
    if let Some(rt) = &new_runtime {
        if !state.users[uidx].instances[iidx].runtime.compatiable_with(rt) {
            let current = state.users[uidx].instances[iidx].runtime.to_string();
            return Err(InstanceError::RuntimeIncompatible { current, target: rt.to_string() });
        }
    }
    let ghost previ = prev.users[uidx as int].instances[iidx as int];
    let instance = &mut state.users[uidx].instances[iidx];
    if let Some(cpu) = req.cpu {
        instance.cpu = cpu;
    }
    if let Some(memory) = req.memory {
        instance.memory = memory;
    }
    if let Some(rt) = new_runtime {
        instance.runtime = rt;
    }
    proof {
        let newi = state@.users[uidx as int].instances[iidx as int];
        assert(state@.users[uidx as int].instances =~= prev.users[uidx as int].instances.update(
            iidx as int,
            newi,
        ));
        assert(state@.users =~= state_with_instance(prev, uidx as int, iidx as int, newi).users);
        assert(state@ == state_with_instance(prev, uidx as int, iidx as int, newi));
        assert(newi == instance_after_update(previ, req@));

        // Well-formedness: the new sums were checked, everything else is
        // untouched.
        let oldu = prev.users[uidx as int];
        let newu = state@.users[uidx as int];
        lemma_sum_update(oldu.instances, iidx as int, newi);
        assert(user_wf(newu)) by {
            assert(forall|j: int|
                0 <= j < oldu.instances.len() && j != iidx as int ==> #[trigger] newu.instances[j]
                    == oldu.instances[j]);
            assert(newu.instances[iidx as int] == newi);
        }
        assert(forall|k: int|
            0 <= k < state@.users.len() ==> user_wf(#[trigger] state@.users[k]));
        assert(usernames_unique(state@.users)) by {
            assert(forall|k: int|
                0 <= k < state@.users.len() ==> (#[trigger] state@.users[k]).username
                    == prev.users[k].username);
        }
        assert(external_ips_unique(state@.users)) by {
            assert forall|u1: int, i1: int, u2: int, i2: int|
                {
                    &&& 0 <= u1 < state@.users.len()
                    &&& 0 <= i1 < state@.users[u1].instances.len()
                    &&& 0 <= u2 < state@.users.len()
                    &&& 0 <= i2 < state@.users[u2].instances.len()
                    &&& (u1 != u2 || i1 != i2)
                    &&& (#[trigger] state@.users[u1].instances[i1]).external_ip is Some
                } implies state@.users[u1].instances[i1].external_ip != (
            #[trigger] state@.users[u2].instances[i2]).external_ip by {
                assert(state@.users[u1].instances[i1].external_ip
                    == prev.users[u1].instances[i1].external_ip);
                assert(state@.users[u2].instances[i2].external_ip
                    == prev.users[u2].instances[i2].external_ip);
            }
        }
    }
    Ok(true)
}

} // verus!
