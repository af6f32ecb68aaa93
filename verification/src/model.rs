//! Entity types of the control plane: lifecycle enums, instances, users,
//! nodes and the root `State`, together with their mathematical views and
//! the validity predicates that admission and scheduling maintain.

use vstd::prelude::*;

verus! {

/// Desired lifecycle state, mutated only by admission operations.
#[derive(Clone, Copy, PartialEq, Eq, Structural, Debug)]
pub enum InstanceStage {
    Stopped,
    Running,
    Deleted,
}

/// Execution backend of an instance; decides which reconciler owns it.
#[derive(Clone, Copy, PartialEq, Eq, Structural, Debug)]
pub enum Runtime {
    Kata,
    Runc,
    Lxc,
    Kvm,
}

/// Operating-system image an instance boots from.
#[derive(Clone, Copy, PartialEq, Eq, Structural, Debug)]
pub enum Image {
    CentOS7,
    CentOS8,
    CentOS9Stream,
    Ubuntu2004,
    Ubuntu2204,
}

/// Observed lifecycle state, written back by the reconcilers.
#[derive(Clone, Debug)]
pub enum InstanceStatus {
    Creating,
    Starting,
    Running,
    Stopping,
    Stopped,
    Deleting,
    Missing,
    Error(String),
}

/// Mathematical view of `InstanceStatus`: the error payload becomes a
/// sequence of characters.
pub ghost enum StatusView {
    Creating,
    Starting,
    Running,
    Stopping,
    Stopped,
    Deleting,
    Missing,
    Error(Seq<char>),
}

impl View for InstanceStatus {
    type V = StatusView;

    open spec fn view(&self) -> StatusView {
        match self {
            InstanceStatus::Creating => StatusView::Creating,
            InstanceStatus::Starting => StatusView::Starting,
            InstanceStatus::Running => StatusView::Running,
            InstanceStatus::Stopping => StatusView::Stopping,
            InstanceStatus::Stopped => StatusView::Stopped,
            InstanceStatus::Deleting => StatusView::Deleting,
            InstanceStatus::Missing => StatusView::Missing,
            InstanceStatus::Error(m) => StatusView::Error(m@),
        }
    }
}

impl InstanceStatus {
    /// A copy with the same view; the error message is cloned.
    pub fn clone_status(&self) -> (r: InstanceStatus)
        ensures
            r@ == self@,
    {
        match self {
            InstanceStatus::Creating => InstanceStatus::Creating,
            InstanceStatus::Starting => InstanceStatus::Starting,
            InstanceStatus::Running => InstanceStatus::Running,
            InstanceStatus::Stopping => InstanceStatus::Stopping,
            InstanceStatus::Stopped => InstanceStatus::Stopped,
            InstanceStatus::Deleting => InstanceStatus::Deleting,
            InstanceStatus::Missing => InstanceStatus::Missing,
            InstanceStatus::Error(m) => InstanceStatus::Error(m.clone()),
        }
    }

    /// Equality on the views, decided executably.
    pub fn eq_status(&self, other: &InstanceStatus) -> (r: bool)
        ensures
            r == (self@ == other@),
    {
        match self {
            InstanceStatus::Creating => match other {
                InstanceStatus::Creating => true,
                _ => false,
            },
            InstanceStatus::Starting => match other {
                InstanceStatus::Starting => true,
                _ => false,
            },
            InstanceStatus::Running => match other {
                InstanceStatus::Running => true,
                _ => false,
            },
            InstanceStatus::Stopping => match other {
                InstanceStatus::Stopping => true,
                _ => false,
            },
            InstanceStatus::Stopped => match other {
                InstanceStatus::Stopped => true,
                _ => false,
            },
            InstanceStatus::Deleting => match other {
                InstanceStatus::Deleting => true,
                _ => false,
            },
            InstanceStatus::Missing => match other {
                InstanceStatus::Missing => true,
                _ => false,
            },
            InstanceStatus::Error(a) => match other {
                InstanceStatus::Error(b) => *a == *b,
                _ => false,
            },
        }

    }
}

impl Runtime {
    /// Images that can be provisioned on this runtime.
    pub open spec fn spec_supported_images(self) -> Seq<Image> {
        match self {
            Runtime::Kata => seq![],
            Runtime::Runc => seq![],
            Runtime::Lxc => seq![
                Image::CentOS7,
                Image::CentOS9Stream,
                Image::Ubuntu2004,
                Image::Ubuntu2204,
            ],
            Runtime::Kvm => seq![
                Image::CentOS7,
                Image::CentOS9Stream,
                Image::Ubuntu2004,
                Image::Ubuntu2204,
            ],
        }
    }

    pub open spec fn spec_supports_image(self, image: Image) -> bool {
        self.spec_supported_images().contains(image)
    }

    pub fn supported_images(&self) -> (r: Vec<Image>)
        ensures
            r@ == self.spec_supported_images(),
    {
        match self {
            Runtime::Kata => Vec::new(),
            Runtime::Runc => Vec::new(),
            Runtime::Lxc => {
                let mut v = Vec::new();
                v.push(Image::CentOS7);
                v.push(Image::CentOS9Stream);
                v.push(Image::Ubuntu2004);
                v.push(Image::Ubuntu2204);
                proof {
                    assert(v@ =~= self.spec_supported_images());
                }
                v
            },
            Runtime::Kvm => {
                let mut v = Vec::new();
                v.push(Image::CentOS7);
                v.push(Image::CentOS9Stream);
                v.push(Image::Ubuntu2004);
                v.push(Image::Ubuntu2204);
                proof {
                    assert(v@ =~= self.spec_supported_images());
                }
                v
            },
        }
    }

    /// Whether this runtime supports the image, decided executably.
    pub fn supports_image(&self, image: &Image) -> (r: bool)
        ensures
            r == self.spec_supports_image(*image),
    {
        let imgs = self.supported_images();
        let mut k: usize = 0;
        while k < imgs.len()
            invariant
                0 <= k <= imgs@.len(),
                imgs@ == self.spec_supported_images(),
                forall|j: int| 0 <= j < k ==> imgs@[j] != *image,
            decreases imgs@.len() - k,
        {
            if imgs[k] == *image {
                return true;
            }
            k += 1;
        }
        false
    }

    /// An instance's runtime may be updated only to a compatible one:
    /// itself, or between the two pod-based runtimes.
    pub open spec fn spec_compatiable_with(self, other: Runtime) -> bool {
        ||| self == other
        ||| (self == Runtime::Kata && other == Runtime::Runc)
        ||| (self == Runtime::Runc && other == Runtime::Kata)
    }

    pub fn compatiable_with(&self, other: &Runtime) -> (r: bool)
        ensures
            r == self.spec_compatiable_with(*other),
    {
        if self == other {
            return true;
        }
        matches!((self, other), (Runtime::Kata, Runtime::Runc) | (Runtime::Runc, Runtime::Kata))
    }

    /// Whether the pod-based reconciler owns instances of this runtime.
    pub open spec fn spec_is_pod_based(self) -> bool {
        self == Runtime::Kata || self == Runtime::Runc
    }

    pub fn is_pod_based(&self) -> (r: bool)
        ensures
            r == self.spec_is_pod_based(),
    {
        matches!(self, Runtime::Kata | Runtime::Runc)
    }
}

/// View of an `Option<String>` as an optional character sequence.
pub open spec fn opt_view(o: Option<String>) -> Option<Seq<char>> {
    match o {
        Some(s) => Some(s@),
        None => None,
    }
}

/// A provisioned (or requested) machine, owned by one user.
#[derive(Clone, Debug)]
pub struct Instance {
    pub name: String,
    pub cpu: usize,
    pub memory: usize,
    pub disk_size: usize,
    pub image: Image,
    pub hostname: String,
    pub ssh_host: Option<String>,
    pub ssh_port: Option<i32>,
    pub password: String,
    pub stage: InstanceStage,
    pub status: InstanceStatus,
    pub internal_ip: Option<String>,
    pub external_ip: Option<String>,
    pub runtime: Runtime,
    pub node_name: Option<String>,
    pub storage_pool: Option<String>,
}

pub ghost struct InstanceView {
    pub name: Seq<char>,
    pub cpu: int,
    pub memory: int,
    pub disk_size: int,
    pub image: Image,
    pub hostname: Seq<char>,
    pub ssh_host: Option<Seq<char>>,
    pub ssh_port: Option<i32>,
    pub password: Seq<char>,
    pub stage: InstanceStage,
    pub status: StatusView,
    pub internal_ip: Option<Seq<char>>,
    pub external_ip: Option<Seq<char>>,
    pub runtime: Runtime,
    pub node_name: Option<Seq<char>>,
    pub storage_pool: Option<Seq<char>>,
}

impl View for Instance {
    type V = InstanceView;

    open spec fn view(&self) -> InstanceView {
        InstanceView {
            name: self.name@,
            cpu: self.cpu as int,
            memory: self.memory as int,
            disk_size: self.disk_size as int,
            image: self.image,
            hostname: self.hostname@,
            ssh_host: opt_view(self.ssh_host),
            ssh_port: self.ssh_port,
            password: self.password@,
            stage: self.stage,
            status: self.status@,
            internal_ip: opt_view(self.internal_ip),
            external_ip: opt_view(self.external_ip),
            runtime: self.runtime,
            node_name: opt_view(self.node_name),
            storage_pool: opt_view(self.storage_pool),
        }
    }
}

/// A tenant: quotas plus the ordered list of owned instances.
#[derive(Clone, Debug)]
pub struct User {
    pub username: String,
    pub cpu_quota: usize,
    pub memory_quota: usize,
    pub disk_quota: usize,
    pub instance_quota: usize,
    pub instances: Vec<Instance>,
}

pub ghost struct UserView {
    pub username: Seq<char>,
    pub cpu_quota: int,
    pub memory_quota: int,
    pub disk_quota: int,
    pub instance_quota: int,
    pub instances: Seq<InstanceView>,
}

impl View for User {
    type V = UserView;

    open spec fn view(&self) -> UserView {
        UserView {
            username: self.username@,
            cpu_quota: self.cpu_quota as int,
            memory_quota: self.memory_quota as int,
            disk_quota: self.disk_quota as int,
            instance_quota: self.instance_quota as int,
            instances: self.instances@.map_values(|i: Instance| i@),
        }
    }
}

/// A named storage area on a node.
#[derive(Clone, Debug)]
pub struct StoragePool {
    pub name: String,
    pub total: usize,
    pub used: usize,
    pub allocated: usize,
}

pub ghost struct StoragePoolView {
    pub name: Seq<char>,
    pub total: int,
    pub used: int,
    pub allocated: int,
}

impl View for StoragePool {
    type V = StoragePoolView;

    open spec fn view(&self) -> StoragePoolView {
        StoragePoolView {
            name: self.name@,
            total: self.total as int,
            used: self.used as int,
            allocated: self.allocated as int,
        }
    }
}

/// A backend machine that can host instances.
#[derive(Clone, Debug)]
pub struct Node {
    pub name: String,
    pub storage_pools: Vec<StoragePool>,
    pub runtimes: Vec<Runtime>,
    pub cpu_total: usize,
    pub cpu_allocated: usize,
    pub memory_total: usize,
    pub memory_allocated: usize,
    pub storage_total: usize,
    pub storage_used: usize,
    pub storage_allocated: usize,
}

pub ghost struct NodeView {
    pub name: Seq<char>,
    pub storage_pools: Seq<StoragePoolView>,
    pub runtimes: Seq<Runtime>,
    pub cpu_total: int,
    pub cpu_allocated: int,
    pub memory_total: int,
    pub memory_allocated: int,
    pub storage_total: int,
    pub storage_used: int,
    pub storage_allocated: int,
}

impl View for Node {
    type V = NodeView;

    open spec fn view(&self) -> NodeView {
        NodeView {
            name: self.name@,
            storage_pools: self.storage_pools@.map_values(|p: StoragePool| p@),
            runtimes: self.runtimes@,
            cpu_total: self.cpu_total as int,
            cpu_allocated: self.cpu_allocated as int,
            memory_total: self.memory_total as int,
            memory_allocated: self.memory_allocated as int,
            storage_total: self.storage_total as int,
            storage_used: self.storage_used as int,
            storage_allocated: self.storage_allocated as int,
        }
    }
}

/// The root of the authoritative control-plane state.
#[derive(Clone, Debug)]
pub struct State {
    pub users: Vec<User>,
    pub nodes: Vec<Node>,
}

pub ghost struct StateView {
    pub users: Seq<UserView>,
    pub nodes: Seq<NodeView>,
}

impl View for State {
    type V = StateView;

    open spec fn view(&self) -> StateView {
        StateView {
            users: self.users@.map_values(|u: User| u@),
            nodes: self.nodes@.map_values(|n: Node| n@),
        }
    }
}

// ---------------------------------------------------------------------------
// Sums of per-instance resources, used by quotas and allocation accounting.
// ---------------------------------------------------------------------------

/// Total cpu cores requested by a sequence of instances.
pub open spec fn sum_cpu(s: Seq<InstanceView>) -> int
    decreases s.len(),
{
    if s.len() == 0 {
        0
    } else {
        s.first().cpu + sum_cpu(s.drop_first())
    }
}

/// Total memory (GiB) requested by a sequence of instances.
pub open spec fn sum_memory(s: Seq<InstanceView>) -> int
    decreases s.len(),
{
    if s.len() == 0 {
        0
    } else {
        s.first().memory + sum_memory(s.drop_first())
    }
}

/// Total disk (GiB) requested by a sequence of instances.
pub open spec fn sum_disk(s: Seq<InstanceView>) -> int
    decreases s.len(),
{
    if s.len() == 0 {
        0
    } else {
        s.first().disk_size + sum_disk(s.drop_first())
    }
}

pub proof fn lemma_sum_take_succ(s: Seq<InstanceView>, k: int)
    requires
        0 <= k < s.len(),
    ensures
        sum_cpu(s.take(k + 1)) == sum_cpu(s.take(k)) + s[k].cpu,
        sum_memory(s.take(k + 1)) == sum_memory(s.take(k)) + s[k].memory,
        sum_disk(s.take(k + 1)) == sum_disk(s.take(k)) + s[k].disk_size,
    decreases k,
{
    if k == 0 {
        assert(s.take(1) =~= seq![s[0]]);
        assert(s.take(1).drop_first() =~= Seq::<InstanceView>::empty());
        assert(s.take(0) =~= Seq::<InstanceView>::empty());
    } else {
        lemma_sum_take_succ(s.drop_first(), k - 1);
        assert(s.take(k + 1).drop_first() =~= s.drop_first().take(k));
        assert(s.take(k).drop_first() =~= s.drop_first().take(k - 1));
        assert(s.take(k + 1).first() == s[0]);
        assert(s.take(k).first() == s[0]);
        assert(s.drop_first().take(k)[k - 1] == s[k]);
    }
}

pub proof fn lemma_sum_push(s: Seq<InstanceView>, x: InstanceView)
    ensures
        sum_cpu(s.push(x)) == sum_cpu(s) + x.cpu,
        sum_memory(s.push(x)) == sum_memory(s) + x.memory,
        sum_disk(s.push(x)) == sum_disk(s) + x.disk_size,
    decreases s.len(),
{
    if s.len() == 0 {
        assert(s.push(x).drop_first() =~= Seq::<InstanceView>::empty());
        assert(s.push(x).first() == x);
        assert(sum_cpu(Seq::<InstanceView>::empty()) == 0);
        assert(sum_memory(Seq::<InstanceView>::empty()) == 0);
        assert(sum_disk(Seq::<InstanceView>::empty()) == 0);
    } else {
        lemma_sum_push(s.drop_first(), x);
        assert(s.push(x).drop_first() =~= s.drop_first().push(x));
        assert(s.push(x).first() == s.first());
    }
}

pub proof fn lemma_sum_update(s: Seq<InstanceView>, j: int, x: InstanceView)
    requires
        0 <= j < s.len(),
    ensures
        sum_cpu(s.update(j, x)) == sum_cpu(s) - s[j].cpu + x.cpu,
        sum_memory(s.update(j, x)) == sum_memory(s) - s[j].memory + x.memory,
        sum_disk(s.update(j, x)) == sum_disk(s) - s[j].disk_size + x.disk_size,
    decreases s.len(),
{
    if j == 0 {
        assert(s.update(0, x).drop_first() =~= s.drop_first());
        assert(s.update(0, x).first() == x);
    } else {
        lemma_sum_update(s.drop_first(), j - 1, x);
        assert(s.update(j, x).drop_first() =~= s.drop_first().update(j - 1, x));
        assert(s.update(j, x).first() == s.first());
    }
}

pub proof fn lemma_sum_remove(s: Seq<InstanceView>, j: int)
    requires
        0 <= j < s.len(),
    ensures
        sum_cpu(s.remove(j)) == sum_cpu(s) - s[j].cpu,
        sum_memory(s.remove(j)) == sum_memory(s) - s[j].memory,
        sum_disk(s.remove(j)) == sum_disk(s) - s[j].disk_size,
    decreases s.len(),
{
    if j == 0 {
        assert(s.remove(0) =~= s.drop_first());
    } else {
        lemma_sum_remove(s.drop_first(), j - 1);
        assert(s.remove(j).drop_first() =~= s.drop_first().remove(j - 1));
        assert(s.remove(j).first() == s.first());
    }
}

pub proof fn lemma_sum_split(s: Seq<InstanceView>, k: int)
    requires
        0 <= k <= s.len(),
    ensures
        sum_cpu(s) == sum_cpu(s.take(k)) + sum_cpu(s.skip(k)),
        sum_memory(s) == sum_memory(s.take(k)) + sum_memory(s.skip(k)),
        sum_disk(s) == sum_disk(s.take(k)) + sum_disk(s.skip(k)),
    decreases k,
{
    if k == 0 {
        assert(s.take(0) =~= Seq::<InstanceView>::empty());
        assert(s.skip(0) =~= s);
        assert(sum_cpu(Seq::<InstanceView>::empty()) == 0);
        assert(sum_memory(Seq::<InstanceView>::empty()) == 0);
        assert(sum_disk(Seq::<InstanceView>::empty()) == 0);
    } else {
        lemma_sum_split(s.drop_first(), k - 1);
        assert(s.take(k).drop_first() =~= s.drop_first().take(k - 1));
        assert(s.skip(k) =~= s.drop_first().skip(k - 1));
        assert(s.take(k).first() == s.first());
    }
}

/// One element's resources are at most the whole sum, when all elements
/// are nonnegative.
pub proof fn lemma_sum_element_le(s: Seq<InstanceView>, j: int)
    requires
        0 <= j < s.len(),
        forall|i: int| 0 <= i < s.len() ==> (#[trigger] s[i]).cpu >= 0 && s[i].memory >= 0
            && s[i].disk_size >= 0,
    ensures
        s[j].cpu <= sum_cpu(s),
        s[j].memory <= sum_memory(s),
        s[j].disk_size <= sum_disk(s),
{
    lemma_sum_split(s, j);
    assert(forall|i: int|
        0 <= i < s.take(j).len() ==> (#[trigger] s.take(j)[i]) == s[i]);
    lemma_sum_nonneg(s.take(j));
    let tail = s.skip(j);
    assert(forall|i: int| 0 <= i < tail.len() ==> (#[trigger] tail[i]) == s[i + j]);
    assert(tail.first() == s[j]);
    assert(forall|i: int|
        0 <= i < tail.drop_first().len() ==> (#[trigger] tail.drop_first()[i]) == tail[i + 1]);
    lemma_sum_nonneg(tail.drop_first());
}

pub proof fn lemma_sum_nonneg(s: Seq<InstanceView>)
    requires
        forall|i: int| 0 <= i < s.len() ==> #[trigger] s[i].cpu >= 0 && s[i].memory >= 0
            && s[i].disk_size >= 0,
    ensures
        sum_cpu(s) >= 0,
        sum_memory(s) >= 0,
        sum_disk(s) >= 0,
    decreases s.len(),
{
    if s.len() > 0 {
        lemma_sum_nonneg(s.drop_first());
    }
}

// ---------------------------------------------------------------------------
// Locating entries by name.
// ---------------------------------------------------------------------------

/// Index of the first instance named `name`, or -1 when there is none.
pub open spec fn inst_idx(s: Seq<InstanceView>, name: Seq<char>) -> int
    decreases s.len(),
{
    if s.len() == 0 {
        -1
    } else if s.first().name == name {
        0
    } else {
        let sub = inst_idx(s.drop_first(), name);
        if sub == -1 {
            -1
        } else {
            sub + 1
        }
    }
}

pub proof fn lemma_inst_idx(s: Seq<InstanceView>, name: Seq<char>)
    ensures
        inst_idx(s, name) == -1 ==> forall|j: int| 0 <= j < s.len() ==> (#[trigger] s[j]).name
            != name,
        inst_idx(s, name) != -1 ==> {
            &&& 0 <= inst_idx(s, name) < s.len()
            &&& s[inst_idx(s, name)].name == name
            &&& forall|j: int| 0 <= j < inst_idx(s, name) ==> (#[trigger] s[j]).name != name
        },
    decreases s.len(),
{
    if s.len() > 0 {
        lemma_inst_idx(s.drop_first(), name);
        assert(forall|j: int| 1 <= j < s.len() ==> #[trigger] s[j] == s.drop_first()[j - 1]);
    }
}

/// Index of the first user named `username`, or -1 when there is none.
pub open spec fn user_idx(s: Seq<UserView>, username: Seq<char>) -> int
    decreases s.len(),
{
    if s.len() == 0 {
        -1
    } else if s.first().username == username {
        0
    } else {
        let sub = user_idx(s.drop_first(), username);
        if sub == -1 {
            -1
        } else {
            sub + 1
        }
    }
}

pub proof fn lemma_user_idx(s: Seq<UserView>, username: Seq<char>)
    ensures
        user_idx(s, username) == -1 ==> forall|j: int| 0 <= j < s.len() ==> (#[trigger] s[j])
            .username != username,
        user_idx(s, username) != -1 ==> {
            &&& 0 <= user_idx(s, username) < s.len()
            &&& s[user_idx(s, username)].username == username
            &&& forall|j: int| 0 <= j < user_idx(s, username) ==> (#[trigger] s[j]).username
                != username
        },
    decreases s.len(),
{
    if s.len() > 0 {
        lemma_user_idx(s.drop_first(), username);
        assert(forall|j: int| 1 <= j < s.len() ==> #[trigger] s[j] == s.drop_first()[j - 1]);
    }
}

// ---------------------------------------------------------------------------
// Validity predicates maintained by admission and re-established on load.
// ---------------------------------------------------------------------------

/// Per-instance validity: resource requests are positive.
pub open spec fn instance_wf(i: InstanceView) -> bool {
    &&& i.cpu >= 1
    &&& i.memory >= 1
    &&& i.disk_size >= 1
}

/// No two instances of one user share a name.
pub open spec fn instance_names_unique(s: Seq<InstanceView>) -> bool {
    forall|j: int, k: int| 0 <= j < k < s.len() ==> (#[trigger] s[j]).name != (#[trigger] s[k]).name
}

/// Per-user validity: resource sums stay within the quotas, the instance
/// count stays within its quota, names are unique, instances are valid.
pub open spec fn user_wf(u: UserView) -> bool {
    &&& sum_cpu(u.instances) <= u.cpu_quota
    &&& sum_memory(u.instances) <= u.memory_quota
    &&& sum_disk(u.instances) <= u.disk_quota
    &&& u.instances.len() <= u.instance_quota
    &&& instance_names_unique(u.instances)
    &&& forall|j: int| 0 <= j < u.instances.len() ==> instance_wf(#[trigger] u.instances[j])
}

/// No two users share a username.
pub open spec fn usernames_unique(s: Seq<UserView>) -> bool {
    forall|j: int, k: int| 0 <= j < k < s.len() ==> (#[trigger] s[j]).username != (#[trigger] s[k]).username
}

/// No two instances anywhere in the state share an external IP.
pub open spec fn external_ips_unique(users: Seq<UserView>) -> bool {
    forall|u1: int, i1: int, u2: int, i2: int|
        {
            &&& 0 <= u1 < users.len()
            &&& 0 <= i1 < users[u1].instances.len()
            &&& 0 <= u2 < users.len()
            &&& 0 <= i2 < users[u2].instances.len()
            &&& (u1 != u2 || i1 != i2)
            &&& (#[trigger] users[u1].instances[i1]).external_ip is Some
        } ==> users[u1].instances[i1].external_ip != (#[trigger] users[u2].instances[i2]).external_ip
}

/// Validity of the user part of the state.
pub open spec fn state_wf(s: StateView) -> bool {
    &&& forall|k: int| 0 <= k < s.users.len() ==> user_wf(#[trigger] s.users[k])
    &&& usernames_unique(s.users)
    &&& external_ips_unique(s.users)
}

/// No two nodes share a name, and within each node no two pools share a name.
pub open spec fn nodes_wf(nodes: Seq<NodeView>) -> bool {
    &&& forall|j: int, k: int| 0 <= j < k < nodes.len() ==> (#[trigger] nodes[j]).name != (
    #[trigger] nodes[k]).name
    &&& forall|n: int, j: int, k: int|
        0 <= n < nodes.len() && 0 <= j < k < nodes[n].storage_pools.len() ==> (
        #[trigger] nodes[n].storage_pools[j]).name != (#[trigger] nodes[n].storage_pools[k]).name
}

impl User {
    /// The first instance with the given name, if any.
    pub fn find_instance(&self, name: &str) -> (r: Option<&Instance>)
        ensures
            ({
                let idx = inst_idx(self@.instances, name@);
                match r {
                    Some(inst) => idx != -1 && 0 <= idx < self@.instances.len() && inst@
                        == self@.instances[idx],
                    None => idx == -1,
                }
            }),
    {
        proof {
            lemma_inst_idx(self@.instances, name@);
        }
        let n = self.instances.len();
        let mut k: usize = 0;
        while k < n
            invariant
                0 <= k <= n,
                n == self.instances@.len(),
                self@.instances.len() == n,
                forall|j: int| 0 <= j < k ==> (#[trigger] self@.instances[j]).name != name@,
            decreases n - k,
        {
            assert(self@.instances[k as int] == self.instances@[k as int]@);
            if crate::text::string_eq_str(&self.instances[k].name, name) {
                proof {
                    lemma_inst_idx_found(self@.instances, name@, k as int);
                }
                return Some(&self.instances[k]);
            }
            k += 1;
        }
        None
    }

    /// The position of the instance with the given name, if any; a caller
    /// that holds the user mutably updates the instance in place.
    pub fn find_mut_instance(&self, name: &str) -> (r: Option<usize>)
        ensures
            ({
                let idx = inst_idx(self@.instances, name@);
                match r {
                    Some(k) => idx == k,
                    None => idx == -1,
                }
            }),
    {
        proof {
            lemma_inst_idx(self@.instances, name@);
        }
        let n = self.instances.len();
        let mut k: usize = 0;
        while k < n
            invariant
                0 <= k <= n,
                n == self.instances@.len(),
                self@.instances.len() == n,
                forall|j: int| 0 <= j < k ==> (#[trigger] self@.instances[j]).name != name@,
            decreases n - k,
        {
            assert(self@.instances[k as int] == self.instances@[k as int]@);
            if crate::text::string_eq_str(&self.instances[k].name, name) {
                proof {
                    lemma_inst_idx_found(self@.instances, name@, k as int);
                }
                return Some(k);
            }
            k += 1;
        }
        None
    }

    /// Removes the instance with the given name, if present.
    pub fn remove_instance(&mut self, name: &str)
        ensures
            ({
                let idx = inst_idx(old(self)@.instances, name@);
                &&& final(self).username == old(self).username
                &&& final(self).cpu_quota == old(self).cpu_quota
                &&& final(self).memory_quota == old(self).memory_quota
                &&& final(self).disk_quota == old(self).disk_quota
                &&& final(self).instance_quota == old(self).instance_quota
                &&& final(self)@.instances == if idx == -1 {
                    old(self)@.instances
                } else {
                    old(self)@.instances.remove(idx)
                }
            }),
    {
        let r = self.find_mut_instance(name);
        match r {
            Some(k) => {
                proof {
                    lemma_inst_idx(self@.instances, name@);
                }
                self.instances.remove(k);
                proof {
                    assert(self@.instances =~= old(self)@.instances.remove(k as int));
                }
            },
            None => {},
        }
    }
}

/// The first index at which a fully scanned prefix plus one hit pins down
/// `inst_idx`.
proof fn lemma_inst_idx_found(s: Seq<InstanceView>, name: Seq<char>, k: int)
    requires
        0 <= k < s.len(),
        s[k].name == name,
        forall|j: int| 0 <= j < k ==> (#[trigger] s[j]).name != name,
    ensures
        inst_idx(s, name) == k,
    decreases k,
{
    if k == 0 {
    } else {
        lemma_inst_idx_found(s.drop_first(), name, k - 1);
        assert(forall|j: int| 1 <= j < s.len() ==> #[trigger] s.drop_first()[j - 1] == s[j]);
        assert(forall|j: int| 0 <= j < k - 1 ==> (#[trigger] s.drop_first()[j]).name != name);
    }
}

proof fn lemma_user_idx_found(s: Seq<UserView>, username: Seq<char>, k: int)
    requires
        0 <= k < s.len(),
        s[k].username == username,
        forall|j: int| 0 <= j < k ==> (#[trigger] s[j]).username != username,
    ensures
        user_idx(s, username) == k,
    decreases k,
{
    if k == 0 {
    } else {
        lemma_user_idx_found(s.drop_first(), username, k - 1);
        assert(forall|j: int| 1 <= j < s.len() ==> #[trigger] s.drop_first()[j - 1] == s[j]);
        assert(forall|j: int| 0 <= j < k - 1 ==> (#[trigger] s.drop_first()[j]).username != username);
    }
}

impl State {
    /// An empty state: no users, no nodes.
    pub fn new() -> (s: State)
        ensures
            s@.users == Seq::<UserView>::empty(),
            s@.nodes == Seq::<NodeView>::empty(),
    {
        let s = State { users: Vec::new(), nodes: Vec::new() };
        proof {
            assert(s@.users =~= Seq::<UserView>::empty());
            assert(s@.nodes =~= Seq::<NodeView>::empty());
        }
        s
    }

    /// The first user with the given username, if any.
    pub fn find_user(&self, username: &str) -> (r: Option<&User>)
        ensures
            ({
                let idx = user_idx(self@.users, username@);
                match r {
                    Some(u) => idx != -1 && 0 <= idx < self@.users.len() && u@ == self@.users[idx],
                    None => idx == -1,
                }
            }),
    {
        proof {
            lemma_user_idx(self@.users, username@);
        }
        let n = self.users.len();
        let mut k: usize = 0;
        while k < n
            invariant
                0 <= k <= n,
                n == self.users@.len(),
                self@.users.len() == n,
                forall|j: int| 0 <= j < k ==> (#[trigger] self@.users[j]).username != username@,
            decreases n - k,
        {
            assert(self@.users[k as int] == self.users@[k as int]@);
            if crate::text::string_eq_str(&self.users[k].username, username) {
                proof {
                    lemma_user_idx_found(self@.users, username@, k as int);
                }
                return Some(&self.users[k]);
            }
            k += 1;
        }
        None
    }

    /// The position of the user with the given username, if any; a caller
    /// that holds the state mutably updates the user in place.
    pub fn find_mut_user(&self, username: &str) -> (r: Option<usize>)
        ensures
            ({
                let idx = user_idx(self@.users, username@);
                match r {
                    Some(k) => idx == k,
                    None => idx == -1,
                }
            }),
    {
        proof {
            lemma_user_idx(self@.users, username@);
        }
        let n = self.users.len();
        let mut k: usize = 0;
        while k < n
            invariant
                0 <= k <= n,
                n == self.users@.len(),
                self@.users.len() == n,
                forall|j: int| 0 <= j < k ==> (#[trigger] self@.users[j]).username != username@,
            decreases n - k,
        {
            assert(self@.users[k as int] == self.users@[k as int]@);
            if crate::text::string_eq_str(&self.users[k].username, username) {
                proof {
                    lemma_user_idx_found(self@.users, username@, k as int);
                }
                return Some(k);
            }
            k += 1;
        }
        None
    }
}

// ---------------------------------------------------------------------------
// Derived allocation accounting: how much of each node (and pool) the
// current instances claim.
// ---------------------------------------------------------------------------

/// Cpu claimed on `node` by a sequence of instances.
pub open spec fn cpu_on_node(s: Seq<InstanceView>, node: Seq<char>) -> int
    decreases s.len(),
{
    if s.len() == 0 {
        0
    } else {
        (if s.first().node_name == Some(node) {
            s.first().cpu
        } else {
            0
        }) + cpu_on_node(s.drop_first(), node)
    }
}

/// Memory claimed on `node` by a sequence of instances.
pub open spec fn memory_on_node(s: Seq<InstanceView>, node: Seq<char>) -> int
    decreases s.len(),
{
    if s.len() == 0 {
        0
    } else {
        (if s.first().node_name == Some(node) {
            s.first().memory
        } else {
            0
        }) + memory_on_node(s.drop_first(), node)
    }
}

/// Disk claimed on `node` by a sequence of instances, over all its pools.
pub open spec fn disk_on_node(s: Seq<InstanceView>, node: Seq<char>) -> int
    decreases s.len(),
{
    if s.len() == 0 {
        0
    } else {
        (if s.first().node_name == Some(node) {
            s.first().disk_size
        } else {
            0
        }) + disk_on_node(s.drop_first(), node)
    }
}

/// Disk claimed on pool `pool` of `node` by a sequence of instances.
pub open spec fn disk_on_pool(s: Seq<InstanceView>, node: Seq<char>, pool: Seq<char>) -> int
    decreases s.len(),
{
    if s.len() == 0 {
        0
    } else {
        (if s.first().node_name == Some(node) && s.first().storage_pool == Some(pool) {
            s.first().disk_size
        } else {
            0
        }) + disk_on_pool(s.drop_first(), node, pool)
    }
}

/// Cpu claimed on `node` by all users' instances.
pub open spec fn state_cpu_on(users: Seq<UserView>, node: Seq<char>) -> int
    decreases users.len(),
{
    if users.len() == 0 {
        0
    } else {
        cpu_on_node(users.first().instances, node) + state_cpu_on(users.drop_first(), node)
    }
}

pub open spec fn state_memory_on(users: Seq<UserView>, node: Seq<char>) -> int
    decreases users.len(),
{
    if users.len() == 0 {
        0
    } else {
        memory_on_node(users.first().instances, node) + state_memory_on(users.drop_first(), node)
    }
}

pub open spec fn state_disk_on(users: Seq<UserView>, node: Seq<char>) -> int
    decreases users.len(),
{
    if users.len() == 0 {
        0
    } else {
        disk_on_node(users.first().instances, node) + state_disk_on(users.drop_first(), node)
    }
}

pub open spec fn state_disk_on_pool(users: Seq<UserView>, node: Seq<char>, pool: Seq<char>) -> int
    decreases users.len(),
{
    if users.len() == 0 {
        0
    } else {
        disk_on_pool(users.first().instances, node, pool) + state_disk_on_pool(
            users.drop_first(),
            node,
            pool,
        )
    }
}

/// A node whose derived allocation counters match what the instances claim.
pub open spec fn node_with_allocations(n: NodeView, users: Seq<UserView>) -> NodeView {
    NodeView {
        cpu_allocated: state_cpu_on(users, n.name),
        memory_allocated: state_memory_on(users, n.name),
        storage_allocated: state_disk_on(users, n.name),
        storage_pools: Seq::new(
            n.storage_pools.len(),
            |p: int|
                StoragePoolView {
                    allocated: state_disk_on_pool(users, n.name, n.storage_pools[p].name),
                    ..n.storage_pools[p]
                },
        ),
        ..n
    }
}

/// Every node's allocation counters match what the instances claim.
pub open spec fn allocations_synced(s: StateView) -> bool {
    forall|k: int|
        0 <= k < s.nodes.len() ==> #[trigger] s.nodes[k] == node_with_allocations(
            s.nodes[k],
            s.users,
        )
}

/// The machine-size bound that allocation accounting needs: the claims on
/// each known node fit a usize.
pub open spec fn allocation_sums_fit(s: StateView) -> bool {
    forall|k: int|
        0 <= k < s.nodes.len() ==> {
            &&& state_cpu_on(s.users, (#[trigger] s.nodes[k]).name) <= usize::MAX
            &&& state_memory_on(s.users, s.nodes[k].name) <= usize::MAX
            &&& state_disk_on(s.users, s.nodes[k].name) <= usize::MAX
        }
}

pub proof fn lemma_on_node_take_succ(s: Seq<InstanceView>, node: Seq<char>, k: int)
    requires
        0 <= k < s.len(),
    ensures
        cpu_on_node(s.take(k + 1), node) == cpu_on_node(s.take(k), node) + (if s[k].node_name
            == Some(node) {
            s[k].cpu
        } else {
            0
        }),
        memory_on_node(s.take(k + 1), node) == memory_on_node(s.take(k), node) + (if s[k].node_name
            == Some(node) {
            s[k].memory
        } else {
            0
        }),
        disk_on_node(s.take(k + 1), node) == disk_on_node(s.take(k), node) + (if s[k].node_name
            == Some(node) {
            s[k].disk_size
        } else {
            0
        }),
    decreases k,
{
    if k == 0 {
        assert(s.take(1) =~= seq![s[0]]);
        assert(s.take(1).drop_first() =~= Seq::<InstanceView>::empty());
        assert(s.take(0) =~= Seq::<InstanceView>::empty());
    } else {
        lemma_on_node_take_succ(s.drop_first(), node, k - 1);
        assert(s.take(k + 1).drop_first() =~= s.drop_first().take(k));
        assert(s.take(k).drop_first() =~= s.drop_first().take(k - 1));
        assert(s.take(k + 1).first() == s[0]);
        assert(s.take(k).first() == s[0]);
        assert(s.drop_first().take(k)[k - 1] == s[k]);
    }
}

pub proof fn lemma_on_pool_take_succ(s: Seq<InstanceView>, node: Seq<char>, pool: Seq<char>, k: int)
    requires
        0 <= k < s.len(),
    ensures
        disk_on_pool(s.take(k + 1), node, pool) == disk_on_pool(s.take(k), node, pool) + (
        if s[k].node_name == Some(node) && s[k].storage_pool == Some(pool) {
            s[k].disk_size
        } else {
            0
        }),
    decreases k,
{
    if k == 0 {
        assert(s.take(1) =~= seq![s[0]]);
        assert(s.take(1).drop_first() =~= Seq::<InstanceView>::empty());
        assert(s.take(0) =~= Seq::<InstanceView>::empty());
    } else {
        lemma_on_pool_take_succ(s.drop_first(), node, pool, k - 1);
        assert(s.take(k + 1).drop_first() =~= s.drop_first().take(k));
        assert(s.take(k).drop_first() =~= s.drop_first().take(k - 1));
        assert(s.take(k + 1).first() == s[0]);
        assert(s.take(k).first() == s[0]);
        assert(s.drop_first().take(k)[k - 1] == s[k]);
    }
}

pub proof fn lemma_state_on_take_succ(users: Seq<UserView>, node: Seq<char>, k: int)
    requires
        0 <= k < users.len(),
    ensures
        state_cpu_on(users.take(k + 1), node) == state_cpu_on(users.take(k), node) + cpu_on_node(
            users[k].instances,
            node,
        ),
        state_memory_on(users.take(k + 1), node) == state_memory_on(users.take(k), node)
            + memory_on_node(users[k].instances, node),
        state_disk_on(users.take(k + 1), node) == state_disk_on(users.take(k), node) + disk_on_node(
            users[k].instances,
            node,
        ),
    decreases k,
{
    if k == 0 {
        assert(users.take(1) =~= seq![users[0]]);
        assert(users.take(1).drop_first() =~= Seq::<UserView>::empty());
        assert(users.take(0) =~= Seq::<UserView>::empty());
    } else {
        lemma_state_on_take_succ(users.drop_first(), node, k - 1);
        assert(users.take(k + 1).drop_first() =~= users.drop_first().take(k));
        assert(users.take(k).drop_first() =~= users.drop_first().take(k - 1));
        assert(users.take(k + 1).first() == users[0]);
        assert(users.take(k).first() == users[0]);
        assert(users.drop_first().take(k)[k - 1] == users[k]);
    }
}

pub proof fn lemma_state_on_pool_take_succ(
    users: Seq<UserView>,
    node: Seq<char>,
    pool: Seq<char>,
    k: int,
)
    requires
        0 <= k < users.len(),
    ensures
        state_disk_on_pool(users.take(k + 1), node, pool) == state_disk_on_pool(
            users.take(k),
            node,
            pool,
        ) + disk_on_pool(users[k].instances, node, pool),
    decreases k,
{
    if k == 0 {
        assert(users.take(1) =~= seq![users[0]]);
        assert(users.take(1).drop_first() =~= Seq::<UserView>::empty());
        assert(users.take(0) =~= Seq::<UserView>::empty());
    } else {
        lemma_state_on_pool_take_succ(users.drop_first(), node, pool, k - 1);
        assert(users.take(k + 1).drop_first() =~= users.drop_first().take(k));
        assert(users.take(k).drop_first() =~= users.drop_first().take(k - 1));
        assert(users.take(k + 1).first() == users[0]);
        assert(users.take(k).first() == users[0]);
        assert(users.drop_first().take(k)[k - 1] == users[k]);
    }
}

/// All four claim sums are nonnegative when the instances' resources are.
pub proof fn lemma_on_node_nonneg(s: Seq<InstanceView>, node: Seq<char>, pool: Seq<char>)
    requires
        forall|i: int| 0 <= i < s.len() ==> (#[trigger] s[i]).cpu >= 0 && s[i].memory >= 0
            && s[i].disk_size >= 0,
    ensures
        cpu_on_node(s, node) >= 0,
        memory_on_node(s, node) >= 0,
        disk_on_node(s, node) >= 0,
        disk_on_pool(s, node, pool) >= 0,
        disk_on_pool(s, node, pool) <= disk_on_node(s, node),
    decreases s.len(),
{
    if s.len() > 0 {
        assert(forall|i: int|
            0 <= i < s.drop_first().len() ==> (#[trigger] s.drop_first()[i]) == s[i + 1]);
        lemma_on_node_nonneg(s.drop_first(), node, pool);
    }
}

/// Nonnegativity lifted to all users, for views that come from executable
/// state (whose resource numbers are machine integers).
pub open spec fn users_resources_nonneg(users: Seq<UserView>) -> bool {
    forall|u: int, i: int|
        0 <= u < users.len() && 0 <= i < users[u].instances.len() ==> {
            &&& (#[trigger] users[u].instances[i]).cpu >= 0
            &&& users[u].instances[i].memory >= 0
            &&& users[u].instances[i].disk_size >= 0
        }
}

pub proof fn lemma_state_on_nonneg(users: Seq<UserView>, node: Seq<char>, pool: Seq<char>)
    requires
        users_resources_nonneg(users),
    ensures
        state_cpu_on(users, node) >= 0,
        state_memory_on(users, node) >= 0,
        state_disk_on(users, node) >= 0,
        state_disk_on_pool(users, node, pool) >= 0,
        state_disk_on_pool(users, node, pool) <= state_disk_on(users, node),
    decreases users.len(),
{
    if users.len() > 0 {
        assert(forall|i: int|
            0 <= i < users.first().instances.len() ==> (#[trigger] users.first().instances[i]).cpu
                >= 0 && users.first().instances[i].memory >= 0
                && users.first().instances[i].disk_size >= 0) by {
            assert(users.first() == users[0]);
        }
        lemma_on_node_nonneg(users.first().instances, node, pool);
        assert(forall|u: int, i: int|
            0 <= u < users.drop_first().len() && 0 <= i < users.drop_first()[u].instances.len()
                ==> {
                &&& (#[trigger] users.drop_first()[u].instances[i]).cpu >= 0
                &&& users.drop_first()[u].instances[i].memory >= 0
                &&& users.drop_first()[u].instances[i].disk_size >= 0
            }) by {
            assert(forall|u: int|
                0 <= u < users.drop_first().len() ==> (#[trigger] users.drop_first()[u]) == users[u
                    + 1]);
        }
        lemma_state_on_nonneg(users.drop_first(), node, pool);
    }
}

/// The views of executable state have nonnegative resources.
pub proof fn lemma_state_resources_nonneg(s: &State)
    ensures
        users_resources_nonneg(s@.users),
{
    assert forall|u: int, i: int|
        0 <= u < s@.users.len() && 0 <= i < s@.users[u].instances.len() implies {
        &&& (#[trigger] s@.users[u].instances[i]).cpu >= 0
        &&& s@.users[u].instances[i].memory >= 0
        &&& s@.users[u].instances[i].disk_size >= 0
    } by {
        assert(s@.users[u] == s.users@[u]@);
        assert(s@.users[u].instances[i] == s.users@[u].instances@[i]@);
    }
}

pub proof fn lemma_on_node_prefix_le(s: Seq<InstanceView>, node: Seq<char>, pool: Seq<char>, k: int)
    requires
        0 <= k <= s.len(),
        forall|i: int| 0 <= i < s.len() ==> (#[trigger] s[i]).cpu >= 0 && s[i].memory >= 0
            && s[i].disk_size >= 0,
    ensures
        cpu_on_node(s.take(k), node) <= cpu_on_node(s, node),
        memory_on_node(s.take(k), node) <= memory_on_node(s, node),
        disk_on_node(s.take(k), node) <= disk_on_node(s, node),
        disk_on_pool(s.take(k), node, pool) <= disk_on_pool(s, node, pool),
        cpu_on_node(s.take(k), node) >= 0,
        memory_on_node(s.take(k), node) >= 0,
        disk_on_node(s.take(k), node) >= 0,
        disk_on_pool(s.take(k), node, pool) >= 0,
    decreases s.len() - k,
{
    assert(forall|i: int| 0 <= i < s.take(k).len() ==> (#[trigger] s.take(k)[i]) == s[i]);
    lemma_on_node_nonneg(s.take(k), node, pool);
    if k == s.len() {
        assert(s.take(k) =~= s);
    } else {
        lemma_on_node_take_succ(s, node, k);
        lemma_on_pool_take_succ(s, node, pool, k);
        lemma_on_node_prefix_le(s, node, pool, k + 1);
    }
}

pub proof fn lemma_state_on_prefix_le(
    users: Seq<UserView>,
    node: Seq<char>,
    pool: Seq<char>,
    k: int,
)
    requires
        0 <= k <= users.len(),
        users_resources_nonneg(users),
    ensures
        state_cpu_on(users.take(k), node) <= state_cpu_on(users, node),
        state_memory_on(users.take(k), node) <= state_memory_on(users, node),
        state_disk_on(users.take(k), node) <= state_disk_on(users, node),
        state_disk_on_pool(users.take(k), node, pool) <= state_disk_on_pool(users, node, pool),
        state_cpu_on(users.take(k), node) >= 0,
        state_memory_on(users.take(k), node) >= 0,
        state_disk_on(users.take(k), node) >= 0,
        state_disk_on_pool(users.take(k), node, pool) >= 0,
    decreases users.len() - k,
{
    assert(forall|i: int|
        0 <= i < users.take(k).len() ==> (#[trigger] users.take(k)[i]) == users[i]);
    assert(users_resources_nonneg(users.take(k)));
    lemma_state_on_nonneg(users.take(k), node, pool);
    if k == users.len() {
        assert(users.take(k) =~= users);
    } else {
        lemma_state_on_take_succ(users, node, k);
        lemma_state_on_pool_take_succ(users, node, pool, k);
        assert(forall|i: int|
            0 <= i < users[k].instances.len() ==> (#[trigger] users[k].instances[i]).cpu >= 0
                && users[k].instances[i].memory >= 0 && users[k].instances[i].disk_size >= 0);
        lemma_on_node_nonneg(users[k].instances, node, pool);
        lemma_state_on_prefix_le(users, node, pool, k + 1);
    }
}

/// Nonnegativity of resources for views of an executable user list.
pub proof fn lemma_users_nonneg(users: &Vec<User>)
    ensures
        users_resources_nonneg(users@.map_values(|u: User| u@)),
{
    let usersv = users@.map_values(|u: User| u@);
    assert forall|u: int, i: int|
        0 <= u < usersv.len() && 0 <= i < usersv[u].instances.len() implies {
        &&& (#[trigger] usersv[u].instances[i]).cpu >= 0
        &&& usersv[u].instances[i].memory >= 0
        &&& usersv[u].instances[i].disk_size >= 0
    } by {
        assert(usersv[u] == users@[u]@);
        assert(usersv[u].instances[i] == users@[u].instances@[i]@);
    }
}

/// Sums what the instances of all users claim on one node.
fn claims_on_node(users: &Vec<User>, node_name: &String) -> (r: (usize, usize, usize))
    requires
        state_cpu_on(users@.map_values(|u: User| u@), node_name@) <= usize::MAX,
        state_memory_on(users@.map_values(|u: User| u@), node_name@) <= usize::MAX,
        state_disk_on(users@.map_values(|u: User| u@), node_name@) <= usize::MAX,
    ensures
        r.0 == state_cpu_on(users@.map_values(|u: User| u@), node_name@),
        r.1 == state_memory_on(users@.map_values(|u: User| u@), node_name@),
        r.2 == state_disk_on(users@.map_values(|u: User| u@), node_name@),
{
    let ghost usersv = users@.map_values(|u: User| u@);
    proof {
        lemma_users_nonneg(users);
    }
    let n = users.len();
    let mut cpu: usize = 0;
    let mut memory: usize = 0;
    let mut disk: usize = 0;
    let mut k: usize = 0;
    proof {
        assert(usersv.take(0) =~= Seq::<UserView>::empty());
    }
    while k < n
        invariant
            0 <= k <= n,
            n == users@.len(),
            usersv == users@.map_values(|u: User| u@),
            usersv.len() == n,
            users_resources_nonneg(usersv),
            state_cpu_on(usersv, node_name@) <= usize::MAX,
            state_memory_on(usersv, node_name@) <= usize::MAX,
            state_disk_on(usersv, node_name@) <= usize::MAX,
            cpu == state_cpu_on(usersv.take(k as int), node_name@),
            memory == state_memory_on(usersv.take(k as int), node_name@),
            disk == state_disk_on(usersv.take(k as int), node_name@),
        decreases n - k,
    {
        let ghost insts = usersv[k as int].instances;
        proof {
            assert(usersv[k as int] == users@[k as int]@);
            lemma_state_on_take_succ(usersv, node_name@, k as int);
            lemma_state_on_prefix_le(usersv, node_name@, node_name@, k as int + 1);
            assert(forall|i: int|
                0 <= i < insts.len() ==> (#[trigger] insts[i]).cpu >= 0 && insts[i].memory >= 0
                    && insts[i].disk_size >= 0);
            assert(insts.take(0) =~= Seq::<InstanceView>::empty());
        }
        let u = &users[k];
        let m = u.instances.len();
        let mut j: usize = 0;
        while j < m
            invariant
                0 <= j <= m,
                m == u.instances@.len(),
                insts == u@.instances,
                insts.len() == m,
                forall|i: int| 0 <= i < insts.len() ==> (#[trigger] insts[i]).cpu >= 0
                    && insts[i].memory >= 0 && insts[i].disk_size >= 0,
                state_cpu_on(usersv.take(k as int), node_name@) + cpu_on_node(insts, node_name@)
                    <= usize::MAX,
                state_memory_on(usersv.take(k as int), node_name@) + memory_on_node(
                    insts,
                    node_name@,
                ) <= usize::MAX,
                state_disk_on(usersv.take(k as int), node_name@) + disk_on_node(insts, node_name@)
                    <= usize::MAX,
                state_cpu_on(usersv.take(k as int), node_name@) >= 0,
                state_memory_on(usersv.take(k as int), node_name@) >= 0,
                state_disk_on(usersv.take(k as int), node_name@) >= 0,
                cpu == state_cpu_on(usersv.take(k as int), node_name@) + cpu_on_node(
                    insts.take(j as int),
                    node_name@,
                ),
                memory == state_memory_on(usersv.take(k as int), node_name@) + memory_on_node(
                    insts.take(j as int),
                    node_name@,
                ),
                disk == state_disk_on(usersv.take(k as int), node_name@) + disk_on_node(
                    insts.take(j as int),
                    node_name@,
                ),
            decreases m - j,
        {
            proof {
                lemma_on_node_take_succ(insts, node_name@, j as int);
                lemma_on_node_prefix_le(insts, node_name@, node_name@, j as int + 1);
                assert(insts[j as int] == u.instances@[j as int]@);
            }
            let inst = &u.instances[j];
            let on_this = match &inst.node_name {
                Some(nm) => crate::text::str_eq(nm.as_str(), node_name.as_str()),
                None => false,
            };
            if on_this {
                cpu = cpu + inst.cpu;
                memory = memory + inst.memory;
                disk = disk + inst.disk_size;
            }
            j += 1;
        }
        proof {
            assert(insts.take(m as int) =~= insts);
            lemma_state_on_take_succ(usersv, node_name@, k as int);
        }
        k += 1;
    }
    proof {
        assert(usersv.take(n as int) =~= usersv);
    }
    (cpu, memory, disk)
}

/// Sums what the instances of all users claim on one pool of one node.
fn claims_on_pool(users: &Vec<User>, node_name: &String, pool_name: &String) -> (r: usize)
    requires
        state_disk_on(users@.map_values(|u: User| u@), node_name@) <= usize::MAX,
    ensures
        r == state_disk_on_pool(users@.map_values(|u: User| u@), node_name@, pool_name@),
{
    let ghost usersv = users@.map_values(|u: User| u@);
    proof {
        lemma_users_nonneg(users);
        lemma_state_on_nonneg(usersv, node_name@, pool_name@);
    }
    let n = users.len();
    let mut disk: usize = 0;
    let mut k: usize = 0;
    proof {
        assert(usersv.take(0) =~= Seq::<UserView>::empty());
    }
    while k < n
        invariant
            0 <= k <= n,
            n == users@.len(),
            usersv == users@.map_values(|u: User| u@),
            usersv.len() == n,
            users_resources_nonneg(usersv),
            state_disk_on_pool(usersv, node_name@, pool_name@) <= usize::MAX,
            disk == state_disk_on_pool(usersv.take(k as int), node_name@, pool_name@),
        decreases n - k,
    {
        let ghost insts = usersv[k as int].instances;
        proof {
            assert(usersv[k as int] == users@[k as int]@);
            lemma_state_on_pool_take_succ(usersv, node_name@, pool_name@, k as int);
            lemma_state_on_prefix_le(usersv, node_name@, pool_name@, k as int + 1);
            assert(forall|i: int|
                0 <= i < insts.len() ==> (#[trigger] insts[i]).cpu >= 0 && insts[i].memory >= 0
                    && insts[i].disk_size >= 0);
            assert(insts.take(0) =~= Seq::<InstanceView>::empty());
        }
        let u = &users[k];
        let m = u.instances.len();
        let mut j: usize = 0;
        while j < m
            invariant
                0 <= j <= m,
                m == u.instances@.len(),
                insts == u@.instances,
                insts.len() == m,
                forall|i: int| 0 <= i < insts.len() ==> (#[trigger] insts[i]).cpu >= 0
                    && insts[i].memory >= 0 && insts[i].disk_size >= 0,
                state_disk_on_pool(usersv.take(k as int), node_name@, pool_name@) + disk_on_pool(
                    insts,
                    node_name@,
                    pool_name@,
                ) <= usize::MAX,
                state_disk_on_pool(usersv.take(k as int), node_name@, pool_name@) >= 0,
                disk == state_disk_on_pool(usersv.take(k as int), node_name@, pool_name@)
                    + disk_on_pool(insts.take(j as int), node_name@, pool_name@),
            decreases m - j,
        {
            proof {
                lemma_on_pool_take_succ(insts, node_name@, pool_name@, j as int);
                lemma_on_node_prefix_le(insts, node_name@, pool_name@, j as int + 1);
                assert(insts[j as int] == u.instances@[j as int]@);
            }
            let inst = &u.instances[j];
            let on_node = match &inst.node_name {
                Some(nm) => crate::text::str_eq(nm.as_str(), node_name.as_str()),
                None => false,
            };
            let on_pool = match &inst.storage_pool {
                Some(pm) => crate::text::str_eq(pm.as_str(), pool_name.as_str()),
                None => false,
            };
            if on_node && on_pool {
                disk = disk + inst.disk_size;
            }
            j += 1;
        }
        proof {
            assert(insts.take(m as int) =~= insts);
            lemma_state_on_pool_take_succ(usersv, node_name@, pool_name@, k as int);
        }
        k += 1;
    }
    proof {
        assert(usersv.take(n as int) =~= usersv);
    }
    disk
}

/// Refreshing a node's counters twice changes nothing the second time.
pub proof fn lemma_node_with_allocations_idempotent(n: NodeView, users: Seq<UserView>)
    ensures
        node_with_allocations(node_with_allocations(n, users), users) == node_with_allocations(
            n,
            users,
        ),
{
    let once = node_with_allocations(n, users);
    let twice = node_with_allocations(once, users);
    assert(twice.storage_pools =~= once.storage_pools);
}

impl State {
    /// Recomputes every node's (and every pool's) allocation counters from
    /// the current instances.
    pub fn sync_allocated_resources(&mut self)
        requires
            allocation_sums_fit(old(self)@),
        ensures
            final(self)@.users == old(self)@.users,
            final(self)@.nodes.len() == old(self)@.nodes.len(),
            forall|k: int|
                0 <= k < old(self)@.nodes.len() ==> final(self)@.nodes[k]
                    == node_with_allocations(old(self)@.nodes[k], old(self)@.users),
            allocations_synced(final(self)@),
    {
        let ghost prev = old(self)@;
        let nlen = self.nodes.len();

        // First pass: compute every node's claims (read-only).
        let mut node_claims: Vec<(usize, usize, usize)> = Vec::new();
        let mut pool_claims: Vec<Vec<usize>> = Vec::new();
        let mut k: usize = 0;
        while k < nlen
            invariant
                0 <= k <= nlen,
                nlen == self.nodes@.len(),
                self == old(self),
                prev == self@,
                allocation_sums_fit(prev),
                node_claims@.len() == k,
                pool_claims@.len() == k,
                forall|i: int|
                    0 <= i < k ==> {
                        &&& (#[trigger] node_claims@[i]).0 == state_cpu_on(
                            prev.users,
                            prev.nodes[i].name,
                        )
                        &&& node_claims@[i].1 == state_memory_on(prev.users, prev.nodes[i].name)
                        &&& node_claims@[i].2 == state_disk_on(prev.users, prev.nodes[i].name)
                    },
                forall|i: int|
                    0 <= i < k ==> {
                        &&& (#[trigger] pool_claims@[i])@.len() == prev.nodes[i].storage_pools.len()
                        &&& forall|p: int|
                            0 <= p < prev.nodes[i].storage_pools.len()
                                ==> #[trigger] pool_claims@[i]@[p] == state_disk_on_pool(
                                prev.users,
                                prev.nodes[i].name,
                                prev.nodes[i].storage_pools[p].name,
                            )
                    },
            decreases nlen - k,
        {
            proof {
                assert(prev.nodes[k as int] == self.nodes@[k as int]@);
            }
            let node = &self.nodes[k];
            let trip = claims_on_node(&self.users, &node.name);
            let plen = node.storage_pools.len();
            let mut pvals: Vec<usize> = Vec::new();
            let mut p: usize = 0;
            while p < plen
                invariant
                    0 <= p <= plen,
                    plen == node.storage_pools@.len(),
                    prev == self@,
                    node == self.nodes@[k as int],
                    0 <= k < self.nodes@.len(),
                    node@ == prev.nodes[k as int],
                    allocation_sums_fit(prev),
                    pvals@.len() == p,
                    forall|q: int|
                        0 <= q < p ==> #[trigger] pvals@[q] == state_disk_on_pool(
                            prev.users,
                            node@.name,
                            node@.storage_pools[q].name,
                        ),
                decreases plen - p,
            {
                proof {
                    assert(node@.storage_pools[p as int] == node.storage_pools@[p as int]@);
                }
                let v = claims_on_pool(&self.users, &node.name, &node.storage_pools[p].name);
                pvals.push(v);
                p += 1;
            }
            node_claims.push(trip);
            pool_claims.push(pvals);
            k += 1;
        }

        // Second pass: write the counters back.
        let mut k2: usize = 0;
        while k2 < nlen
            invariant
                0 <= k2 <= nlen,
                nlen == self.nodes@.len(),
                self@.users == prev.users,
                self@.nodes.len() == prev.nodes.len(),
                node_claims@.len() == nlen,
                pool_claims@.len() == nlen,
                forall|i: int|
                    0 <= i < nlen ==> {
                        &&& (#[trigger] node_claims@[i]).0 == state_cpu_on(
                            prev.users,
                            prev.nodes[i].name,
                        )
                        &&& node_claims@[i].1 == state_memory_on(prev.users, prev.nodes[i].name)
                        &&& node_claims@[i].2 == state_disk_on(prev.users, prev.nodes[i].name)
                    },
                forall|i: int|
                    0 <= i < nlen ==> {
                        &&& (#[trigger] pool_claims@[i])@.len() == prev.nodes[i].storage_pools.len()
                        &&& forall|p: int|
                            0 <= p < prev.nodes[i].storage_pools.len()
                                ==> #[trigger] pool_claims@[i]@[p] == state_disk_on_pool(
                                prev.users,
                                prev.nodes[i].name,
                                prev.nodes[i].storage_pools[p].name,
                            )
                    },
                forall|i: int|
                    0 <= i < k2 ==> #[trigger] self@.nodes[i] == node_with_allocations(
                        prev.nodes[i],
                        prev.users,
                    ),
                forall|i: int| k2 <= i < nlen ==> #[trigger] self@.nodes[i] == prev.nodes[i],
            decreases nlen - k2,
        {
            let ghost before = self@;
            proof {
                assert(self@.nodes[k2 as int] == self.nodes@[k2 as int]@);
            }
            let trip = node_claims[k2];
            {
                let n = &mut self.nodes[k2];
                n.cpu_allocated = trip.0;
                n.memory_allocated = trip.1;
                n.storage_allocated = trip.2;
            }
            proof {
                assert(self@.users =~= before.users);
                assert(forall|i: int|
                    0 <= i < nlen && i != k2 as int ==> #[trigger] self@.nodes[i]
                        == before.nodes[i]);
            }
            let plen = self.nodes[k2].storage_pools.len();
            proof {
                assert(self@.nodes[k2 as int].storage_pools.len() == plen);
                assert(plen == prev.nodes[k2 as int].storage_pools.len());
            }
            let mut p: usize = 0;
            while p < plen
                invariant
                    0 <= p <= plen,
                    0 <= k2 < nlen,
                    nlen == self.nodes@.len(),
                    self@.users == prev.users,
                    self@.nodes.len() == prev.nodes.len(),
                    pool_claims@.len() == nlen,
                    plen == self.nodes@[k2 as int].storage_pools@.len(),
                    plen == prev.nodes[k2 as int].storage_pools.len(),
                    (#[trigger] pool_claims@[k2 as int])@.len() == plen,
                    forall|q: int|
                        0 <= q < plen ==> #[trigger] pool_claims@[k2 as int]@[q]
                            == state_disk_on_pool(
                            prev.users,
                            prev.nodes[k2 as int].name,
                            prev.nodes[k2 as int].storage_pools[q].name,
                        ),
                    forall|i: int|
                        0 <= i < k2 ==> #[trigger] self@.nodes[i] == node_with_allocations(
                            prev.nodes[i],
                            prev.users,
                        ),
                    forall|i: int| k2 < i < nlen ==> #[trigger] self@.nodes[i] == prev.nodes[i],
                    // The node being refreshed: counters set, pools updated up to p.
                    self@.nodes[k2 as int].name == prev.nodes[k2 as int].name,
                    self@.nodes[k2 as int].runtimes == prev.nodes[k2 as int].runtimes,
                    self@.nodes[k2 as int].cpu_total == prev.nodes[k2 as int].cpu_total,
                    self@.nodes[k2 as int].memory_total == prev.nodes[k2 as int].memory_total,
                    self@.nodes[k2 as int].storage_total == prev.nodes[k2 as int].storage_total,
                    self@.nodes[k2 as int].storage_used == prev.nodes[k2 as int].storage_used,
                    self@.nodes[k2 as int].cpu_allocated == state_cpu_on(
                        prev.users,
                        prev.nodes[k2 as int].name,
                    ),
                    self@.nodes[k2 as int].memory_allocated == state_memory_on(
                        prev.users,
                        prev.nodes[k2 as int].name,
                    ),
                    self@.nodes[k2 as int].storage_allocated == state_disk_on(
                        prev.users,
                        prev.nodes[k2 as int].name,
                    ),
                    forall|q: int|
                        0 <= q < p ==> #[trigger] self@.nodes[k2 as int].storage_pools[q]
                            == (StoragePoolView {
                            allocated: state_disk_on_pool(
                                prev.users,
                                prev.nodes[k2 as int].name,
                                prev.nodes[k2 as int].storage_pools[q].name,
                            ),
                            ..prev.nodes[k2 as int].storage_pools[q]
                        }),
                    forall|q: int|
                        p <= q < plen ==> #[trigger] self@.nodes[k2 as int].storage_pools[q]
                            == prev.nodes[k2 as int].storage_pools[q],
                decreases plen - p,
            {
                let ghost before2 = self@;
                let v = pool_claims[k2][p];
                {
                    let pl = &mut self.nodes[k2].storage_pools[p];
                    pl.allocated = v;
                }
                proof {
                    assert(self@.users =~= before2.users);
                    assert(forall|i: int|
                        0 <= i < nlen && i != k2 as int ==> #[trigger] self@.nodes[i]
                            == before2.nodes[i]);
                    assert(forall|q: int|
                        0 <= q < plen && q != p as int ==> #[trigger] self@.nodes[
                            k2 as int].storage_pools[q] == before2.nodes[k2 as int].storage_pools[q]);
                    assert(self@.nodes[k2 as int].storage_pools[p as int] == (StoragePoolView {
                        allocated: v as int,
                        ..before2.nodes[k2 as int].storage_pools[p as int]
                    }));
                }
                p += 1;
            }
            proof {
                assert(self@.nodes[k2 as int] == node_with_allocations(
                    prev.nodes[k2 as int],
                    prev.users,
                )) by {
                    assert(self@.nodes[k2 as int].storage_pools =~= node_with_allocations(
                        prev.nodes[k2 as int],
                        prev.users,
                    ).storage_pools);
                }
            }
            k2 += 1;
        }
        proof {
            assert(self@.users =~= prev.users);
            assert forall|k: int|
                0 <= k < self@.nodes.len() implies #[trigger] self@.nodes[k]
                == node_with_allocations(self@.nodes[k], self@.users) by {
                lemma_node_with_allocations_idempotent(prev.nodes[k], prev.users);
            }
        }
    }
}

/// Decides per-user validity: quota sums, unique names, positive resources.
fn user_well_formed(u: &User) -> (r: bool)
    ensures
        r == user_wf(u@),
{
    let ghost insts = u@.instances;
    let n = u.instances.len();
    if n > u.instance_quota {
        return false;
    }
    let mut cpu: u128 = 0;
    let mut memory: u128 = 0;
    let mut disk: u128 = 0;
    let mut k: usize = 0;
    proof {
        assert(insts.take(0) =~= Seq::<InstanceView>::empty());
    }
    while k < n
        invariant
            0 <= k <= n,
            n == u.instances@.len(),
            insts == u@.instances,
            insts.len() == n,
            cpu == sum_cpu(insts.take(k as int)),
            memory == sum_memory(insts.take(k as int)),
            disk == sum_disk(insts.take(k as int)),
            cpu <= k as u128 * 0xffff_ffff_ffff_ffffu128,
            memory <= k as u128 * 0xffff_ffff_ffff_ffffu128,
            disk <= k as u128 * 0xffff_ffff_ffff_ffffu128,
            forall|a: int, b: int|
                0 <= a < b < k ==> (#[trigger] insts[a]).name != (#[trigger] insts[b]).name,
            forall|a: int| 0 <= a < k ==> instance_wf(#[trigger] insts[a]),
        decreases n - k,
    {
        proof {
            lemma_sum_take_succ(insts, k as int);
            assert(insts[k as int] == u.instances@[k as int]@);
            assert(cpu + u.instances@[k as int].cpu as u128 <= (k as u128 + 1)
                * 0xffff_ffff_ffff_ffffu128) by (nonlinear_arith)
                requires
                    cpu <= k as u128 * 0xffff_ffff_ffff_ffffu128,
                    u.instances@[k as int].cpu as u128 <= 0xffff_ffff_ffff_ffffu128,
            ;
            assert(memory + u.instances@[k as int].memory as u128 <= (k as u128 + 1)
                * 0xffff_ffff_ffff_ffffu128) by (nonlinear_arith)
                requires
                    memory <= k as u128 * 0xffff_ffff_ffff_ffffu128,
                    u.instances@[k as int].memory as u128 <= 0xffff_ffff_ffff_ffffu128,
            ;
            assert(disk + u.instances@[k as int].disk_size as u128 <= (k as u128 + 1)
                * 0xffff_ffff_ffff_ffffu128) by (nonlinear_arith)
                requires
                    disk <= k as u128 * 0xffff_ffff_ffff_ffffu128,
                    u.instances@[k as int].disk_size as u128 <= 0xffff_ffff_ffff_ffffu128,
            ;
        }
        let inst = &u.instances[k];
        if inst.cpu < 1 || inst.memory < 1 || inst.disk_size < 1 {
            return false;
        }
        let mut j: usize = 0;
        while j < k
            invariant
                0 <= j <= k < n,
                n == u.instances@.len(),
                insts == u@.instances,
                insts.len() == n,
                inst == u.instances@[k as int],
                forall|a: int| 0 <= a < j ==> (#[trigger] insts[a]).name != insts[k as int].name,
            decreases k - j,
        {
            proof {
                assert(insts[j as int] == u.instances@[j as int]@);
            }
            if crate::text::str_eq(u.instances[j].name.as_str(), inst.name.as_str()) {
                return false;
            }
            j += 1;
        }
        cpu = cpu + inst.cpu as u128;
        memory = memory + inst.memory as u128;
        disk = disk + inst.disk_size as u128;
        k += 1;
        proof {
            assert(forall|a: int, b: int|
                0 <= a < b < k ==> (#[trigger] insts[a]).name != (#[trigger] insts[b]).name);
        }
    }
    proof {
        assert(insts.take(n as int) =~= insts);
    }
    cpu <= u.cpu_quota as u128 && memory <= u.memory_quota as u128 && disk
        <= u.disk_quota as u128
}

impl State {
    /// Decides whether the state satisfies the invariants every admission
    /// operation maintains: quota sums within quotas, unique instance names
    /// per user, unique usernames, unique external addresses. The
    /// surrounding process checks this once after loading a state file.
    pub fn is_well_formed(&self) -> (r: bool)
        ensures
            r == state_wf(self@),
    {
        let ghost usersv = self@.users;
        let n = self.users.len();
        let mut k: usize = 0;
        while k < n
            invariant
                0 <= k <= n,
                n == self.users@.len(),
                usersv == self@.users,
                usersv.len() == n,
                forall|a: int| 0 <= a < k ==> user_wf(#[trigger] usersv[a]),
                forall|a: int, b: int|
                    0 <= a < b < k ==> (#[trigger] usersv[a]).username != (
                    #[trigger] usersv[b]).username,
            decreases n - k,
        {
            proof {
                assert(usersv[k as int] == self.users@[k as int]@);
            }
            if !user_well_formed(&self.users[k]) {
                return false;
            }
            let mut j: usize = 0;
            while j < k
                invariant
                    0 <= j <= k < n,
                    n == self.users@.len(),
                    usersv == self@.users,
                    usersv.len() == n,
                    forall|a: int|
                        0 <= a < j ==> (#[trigger] usersv[a]).username != usersv[k as int].username,
                decreases k - j,
            {
                proof {
                    assert(usersv[j as int] == self.users@[j as int]@);
                    assert(usersv[k as int] == self.users@[k as int]@);
                }
                if crate::text::str_eq(
                    self.users[j].username.as_str(),
                    self.users[k].username.as_str(),
                ) {
                    return false;
                }
                j += 1;
            }
            k += 1;
        }
        // Unique external addresses: no instance's address may be held by
        // another instance.
        let mut a: usize = 0;
        while a < n
            invariant
                0 <= a <= n,
                n == self.users@.len(),
                usersv == self@.users,
                usersv.len() == n,
                forall|x: int| 0 <= x < n ==> user_wf(#[trigger] usersv[x]),
                usernames_unique(usersv),
                forall|u1: int, i1: int, u2: int, i2: int|
                    {
                        &&& 0 <= u1 < a
                        &&& 0 <= i1 < usersv[u1].instances.len()
                        &&& 0 <= u2 < n
                        &&& 0 <= i2 < usersv[u2].instances.len()
                        &&& (u1 != u2 || i1 != i2)
                        &&& (#[trigger] usersv[u1].instances[i1]).external_ip is Some
                    } ==> usersv[u1].instances[i1].external_ip != (
                    #[trigger] usersv[u2].instances[i2]).external_ip,
            decreases n - a,
        {
            proof {
                assert(usersv[a as int] == self.users@[a as int]@);
            }
            let m = self.users[a].instances.len();
            let mut b: usize = 0;
            while b < m
                invariant
                    0 <= b <= m,
                    0 <= a < n,
                    n == self.users@.len(),
                    usersv == self@.users,
                    usersv.len() == n,
                    m == usersv[a as int].instances.len(),
                    m == self.users@[a as int].instances@.len(),
                    forall|u1: int, i1: int, u2: int, i2: int|
                        {
                            &&& 0 <= u1 < a
                            &&& 0 <= i1 < usersv[u1].instances.len()
                            &&& 0 <= u2 < n
                            &&& 0 <= i2 < usersv[u2].instances.len()
                            &&& (u1 != u2 || i1 != i2)
                            &&& (#[trigger] usersv[u1].instances[i1]).external_ip is Some
                        } ==> usersv[u1].instances[i1].external_ip != (
                        #[trigger] usersv[u2].instances[i2]).external_ip,
                    forall|i1: int, u2: int, i2: int|
                        {
                            &&& 0 <= i1 < b
                            &&& 0 <= u2 < n
                            &&& 0 <= i2 < usersv[u2].instances.len()
                            &&& (a as int != u2 || i1 != i2)
                            &&& (#[trigger] usersv[a as int].instances[i1]).external_ip is Some
                        } ==> usersv[a as int].instances[i1].external_ip != (
                        #[trigger] usersv[u2].instances[i2]).external_ip,
                decreases m - b,
            {
                proof {
                    assert(usersv[a as int].instances[b as int] == self.users@[a as int].instances@[
                        b as int]@);
                }
                match &self.users[a].instances[b].external_ip {
                    Some(ip) => {
                        if crate::reconcile::ip_held_by_other_exec(self, a, b, ip) {
                            return false;
                        }
                        proof {
                            assert(!crate::reconcile::ip_held_by_other(
                                usersv,
                                a as int,
                                b as int,
                                ip@,
                            ));
                        }
                    },
                    None => {},
                }
                b += 1;
            }
            a += 1;
        }
        proof {
            assert(external_ips_unique(usersv));
        }
        true
    }
}


/// Sums one node's claims with an early stop at the machine's range,
/// deciding whether they fit.
fn claims_on_node_checked(users: &Vec<User>, node_name: &String) -> (r: bool)
    ensures
        r == {
            &&& state_cpu_on(users@.map_values(|u: User| u@), node_name@) <= usize::MAX
            &&& state_memory_on(users@.map_values(|u: User| u@), node_name@) <= usize::MAX
            &&& state_disk_on(users@.map_values(|u: User| u@), node_name@) <= usize::MAX
        },
{
    let ghost usersv = users@.map_values(|u: User| u@);
    proof {
        lemma_users_nonneg(users);
        lemma_state_on_nonneg(usersv, node_name@, node_name@);
    }
    let n = users.len();
    let mut cpu: u128 = 0;
    let mut memory: u128 = 0;
    let mut disk: u128 = 0;
    let mut k: usize = 0;
    proof {
        assert(usersv.take(0) =~= Seq::<UserView>::empty());
    }
    while k < n
        invariant
            0 <= k <= n,
            n == users@.len(),
            usersv == users@.map_values(|u: User| u@),
            usersv.len() == n,
            users_resources_nonneg(usersv),
            cpu == state_cpu_on(usersv.take(k as int), node_name@),
            memory == state_memory_on(usersv.take(k as int), node_name@),
            disk == state_disk_on(usersv.take(k as int), node_name@),
            cpu <= usize::MAX as u128,
            memory <= usize::MAX as u128,
            disk <= usize::MAX as u128,
        decreases n - k,
    {
        let ghost insts = usersv[k as int].instances;
        proof {
            assert(usersv[k as int] == users@[k as int]@);
            lemma_state_on_take_succ(usersv, node_name@, k as int);
            assert(forall|i: int|
                0 <= i < insts.len() ==> (#[trigger] insts[i]).cpu >= 0 && insts[i].memory >= 0
                    && insts[i].disk_size >= 0);
            assert(insts.take(0) =~= Seq::<InstanceView>::empty());
        }
        let u = &users[k];
        let m = u.instances.len();
        let mut j: usize = 0;
        while j < m
            invariant
                0 <= j <= m,
                0 <= k < n,
                m == u.instances@.len(),
                insts == u@.instances,
                insts.len() == m,
                usersv == users@.map_values(|u: User| u@),
                usersv.len() == n,
                users_resources_nonneg(usersv),
                insts == usersv[k as int].instances,
                node_name@ == node_name@,
                forall|i: int| 0 <= i < insts.len() ==> (#[trigger] insts[i]).cpu >= 0
                    && insts[i].memory >= 0 && insts[i].disk_size >= 0,
                state_cpu_on(usersv.take(k as int), node_name@) >= 0,
                state_memory_on(usersv.take(k as int), node_name@) >= 0,
                state_disk_on(usersv.take(k as int), node_name@) >= 0,
                cpu == state_cpu_on(usersv.take(k as int), node_name@) + cpu_on_node(
                    insts.take(j as int),
                    node_name@,
                ),
                memory == state_memory_on(usersv.take(k as int), node_name@) + memory_on_node(
                    insts.take(j as int),
                    node_name@,
                ),
                disk == state_disk_on(usersv.take(k as int), node_name@) + disk_on_node(
                    insts.take(j as int),
                    node_name@,
                ),
                cpu <= usize::MAX as u128,
                memory <= usize::MAX as u128,
                disk <= usize::MAX as u128,
            decreases m - j,
        {
            proof {
                lemma_on_node_take_succ(insts, node_name@, j as int);
                lemma_on_node_prefix_le(insts, node_name@, node_name@, j as int + 1);
                assert(insts[j as int] == u.instances@[j as int]@);
            }
            let inst = &u.instances[j];
            let on_this = match &inst.node_name {
                Some(nm) => crate::text::str_eq(nm.as_str(), node_name.as_str()),
                None => false,
            };
            if on_this {
                cpu = cpu + inst.cpu as u128;
                memory = memory + inst.memory as u128;
                disk = disk + inst.disk_size as u128;
            }
            j += 1;
            if cpu > usize::MAX as u128 || memory > usize::MAX as u128 || disk
                > usize::MAX as u128 {
                // A partial claim already exceeds the machine's range, so
                // the whole claim does.
                proof {
                    lemma_state_on_take_succ(usersv, node_name@, k as int);
                    lemma_state_on_prefix_le(usersv, node_name@, node_name@, k as int + 1);
                    lemma_on_node_prefix_le(insts, node_name@, node_name@, j as int);
                    assert(state_cpu_on(usersv, node_name@) >= cpu || state_memory_on(
                        usersv,
                        node_name@,
                    ) >= memory || state_disk_on(usersv, node_name@) >= disk);
                }
                return false;
            }
        }
        proof {
            assert(insts.take(m as int) =~= insts);
            lemma_state_on_take_succ(usersv, node_name@, k as int);
        }
        k += 1;
    }
    proof {
        assert(usersv.take(n as int) =~= usersv);
    }
    true
}

impl State {
    /// Decides whether every node's claims fit the machine's integers - the
    /// bound the allocation accounting requires. The surrounding process
    /// checks this before a scheduler cycle.
    pub fn allocation_sums_ok(&self) -> (r: bool)
        ensures
            r == allocation_sums_fit(self@),
    {
        let ghost nodesv = self@.nodes;
        let n = self.nodes.len();
        let mut k: usize = 0;
        while k < n
            invariant
                0 <= k <= n,
                n == self.nodes@.len(),
                nodesv == self@.nodes,
                nodesv.len() == n,
                self@.users == self.users@.map_values(|u: User| u@),
                forall|i: int|
                    0 <= i < k ==> {
                        &&& state_cpu_on(self@.users, (#[trigger] nodesv[i]).name) <= usize::MAX
                        &&& state_memory_on(self@.users, nodesv[i].name) <= usize::MAX
                        &&& state_disk_on(self@.users, nodesv[i].name) <= usize::MAX
                    },
            decreases n - k,
        {
            proof {
                assert(nodesv[k as int] == self.nodes@[k as int]@);
            }
            if !claims_on_node_checked(&self.users, &self.nodes[k].name) {
                return false;
            }
            k += 1;
        }
        true
    }
}

} // verus!
