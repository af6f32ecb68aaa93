//! The wire representation of an instance as the listing API returns it:
//! enums rendered as their canonical strings, the hostname equal to the
//! instance name.

use vstd::prelude::*;

use crate::catalog::{image_display, runtime_display, status_display};
use crate::model::{opt_view, Instance, InstanceView, State, User};

verus! {

/// One instance, as reported to its owner.
#[derive(Clone, Debug)]
pub struct InstanceDto {
    pub name: String,
    pub cpu: usize,
    pub memory: usize,
    pub disk_size: usize,
    pub hostname: String,
    pub ssh_host: Option<String>,
    pub ssh_port: Option<i32>,
    pub password: String,
    pub status: String,
    pub image: String,
    pub internal_ip: Option<String>,
    pub external_ip: Option<String>,
    pub runtime: String,
    pub node_name: Option<String>,
    pub storage_pool: Option<String>,
}

pub ghost struct InstanceDtoView {
    pub name: Seq<char>,
    pub cpu: int,
    pub memory: int,
    pub disk_size: int,
    pub hostname: Seq<char>,
    pub ssh_host: Option<Seq<char>>,
    pub ssh_port: Option<i32>,
    pub password: Seq<char>,
    pub status: Seq<char>,
    pub image: Seq<char>,
    pub internal_ip: Option<Seq<char>>,
    pub external_ip: Option<Seq<char>>,
    pub runtime: Seq<char>,
    pub node_name: Option<Seq<char>>,
    pub storage_pool: Option<Seq<char>>,
}

impl View for InstanceDto {
    type V = InstanceDtoView;

    open spec fn view(&self) -> InstanceDtoView {
        InstanceDtoView {
            name: self.name@,
            cpu: self.cpu as int,
            memory: self.memory as int,
            disk_size: self.disk_size as int,
            hostname: self.hostname@,
            ssh_host: opt_view(self.ssh_host),
            ssh_port: self.ssh_port,
            password: self.password@,
            status: self.status@,
            image: self.image@,
            internal_ip: opt_view(self.internal_ip),
            external_ip: opt_view(self.external_ip),
            runtime: self.runtime@,
            node_name: opt_view(self.node_name),
            storage_pool: opt_view(self.storage_pool),
        }
    }
}

/// How an instance record renders as a DTO.
pub open spec fn dto_of(i: InstanceView) -> InstanceDtoView {
    InstanceDtoView {
        name: i.name,
        cpu: i.cpu,
        memory: i.memory,
        disk_size: i.disk_size,
        hostname: i.name,
        ssh_host: i.ssh_host,
        ssh_port: i.ssh_port,
        password: i.password,
        status: status_display(i.status),
        image: image_display(i.image),
        internal_ip: i.internal_ip,
        external_ip: i.external_ip,
        runtime: runtime_display(i.runtime),
        node_name: i.node_name,
        storage_pool: i.storage_pool,
    }
}

impl InstanceDto {
    /// Renders one instance record.
    pub fn from_instance(m: &Instance) -> (r: InstanceDto)
        ensures
            r@ == dto_of(m@),
    {
        InstanceDto {
            name: m.name.clone(),
            cpu: m.cpu,
            memory: m.memory,
            disk_size: m.disk_size,
            hostname: m.name.clone(),
            ssh_host: m.ssh_host.clone(),
            ssh_port: m.ssh_port,
            password: m.password.clone(),
            status: m.status.to_string(),
            image: m.image.to_string(),
            internal_ip: m.internal_ip.clone(),
            external_ip: m.external_ip.clone(),
            runtime: m.runtime.to_string(),
            node_name: m.node_name.clone(),
            storage_pool: m.storage_pool.clone(),
        }
    }
}

/// Lists a user's instances as DTOs; an unknown user sees an empty list.
pub fn list_instances(state: &State, username: &str) -> (r: Vec<InstanceDto>)
    ensures
        ({
            let uidx = crate::model::user_idx(state@.users, username@);
            if uidx == -1 {
                r@.len() == 0
            } else {
                let insts = state@.users[uidx].instances;
                &&& r@.len() == insts.len()
                &&& forall|j: int| 0 <= j < insts.len() ==> (#[trigger] r@[j])@ == dto_of(insts[j])
            }
        }),
{
    let mut out: Vec<InstanceDto> = Vec::new();
    let u = match state.find_user(username) {
        Some(u) => u,
        None => {
            return out;
        },
    };
    let n = u.instances.len();
    let mut k: usize = 0;
    while k < n
        invariant
            0 <= k <= n,
            n == u.instances@.len(),
            u@.instances.len() == n,
            out@.len() == k,
            forall|j: int| 0 <= j < k ==> (#[trigger] out@[j])@ == dto_of(u@.instances[j]),
        decreases n - k,
    {
        assert(u@.instances[k as int] == u.instances@[k as int]@);
        out.push(InstanceDto::from_instance(&u.instances[k]));
        k += 1;
    }
    out
}

} // verus!
