//! Reconciliation logic for the two backends: which action to drive next
//! from the desired stage and the observed status, and how an observation
//! is written back into the state. The backends themselves (pod API, LXD
//! REST calls) live outside; they hand observations in as plain values.

use vstd::prelude::*;

use crate::model::{
    external_ips_unique, inst_idx, instance_names_unique, instance_wf, lemma_inst_idx,
    lemma_sum_remove, lemma_user_idx, state_wf, user_idx, user_wf, usernames_unique, Instance,
    InstanceStage, InstanceStatus, InstanceView, Runtime, State, StateView, StatusView, User,
    UserView,
};
use crate::admission::{lemma_wf_after_instance_update, state_with_instance};
use crate::text::str_eq;

verus! {

// ---------------------------------------------------------------------------
// Decisions.
// ---------------------------------------------------------------------------

/// What the pod-backend reconciler does next for one instance.
#[derive(Clone, Copy, PartialEq, Eq, Structural, Debug)]
pub enum PodAction {
    /// Wait for the scheduler before creating anything.
    Wait,
    /// Delete the pod so the instance stops.
    DeletePod,
    /// Ensure services, volume claim and pod exist.
    CreateResources,
    /// Tear everything down.
    DeleteAll,
    /// Nothing to drive; only observe.
    Observe,
}

/// The pod-backend transition table: a stopped instance has its pod
/// deleted, a running one has its resources created (also when the external
/// address is still unknown, so the service gets created), a deleted one is
/// torn down.
pub open spec fn spec_pod_action(i: InstanceView) -> PodAction {
    if i.status == StatusView::Creating && i.node_name is None {
        PodAction::Wait
    } else {
        match i.stage {
            InstanceStage::Stopped => if i.status != StatusView::Stopped {
                PodAction::DeletePod
            } else {
                PodAction::Observe
            },
            InstanceStage::Running => if i.status != StatusView::Running || i.external_ip is None {
                PodAction::CreateResources
            } else {
                PodAction::Observe
            },
            InstanceStage::Deleted => PodAction::DeleteAll,
        }
    }
}

/// Decides the next pod-backend action for an instance.
pub fn pod_action(i: &Instance) -> (r: PodAction)
    ensures
        r == spec_pod_action(i@),
{
    if matches!(i.status, InstanceStatus::Creating) && i.node_name.is_none() {
        return PodAction::Wait;
    }
    match i.stage {
        InstanceStage::Stopped => {
            if !i.status.eq_status(&InstanceStatus::Stopped) {
                PodAction::DeletePod
            } else {
                PodAction::Observe
            }
        },
        InstanceStage::Running => {
            if !i.status.eq_status(&InstanceStatus::Running) || i.external_ip.is_none() {
                PodAction::CreateResources
            } else {
                PodAction::Observe
            }
        },
        InstanceStage::Deleted => PodAction::DeleteAll,
    }
}

/// What the container/VM reconciler does next for one instance.
#[derive(Clone, Copy, PartialEq, Eq, Structural, Debug)]
pub enum LxdAction {
    /// Wait for the scheduler's address and placement.
    Wait,
    /// Stop the backend instance.
    Stop,
    /// Create the backend instance.
    Create,
    /// Bring limits in line while stopped, then start.
    SyncAndStart,
    /// Delete the backend instance.
    Delete,
    /// Nothing to drive; only observe.
    Observe,
}

/// The container/VM transition table: create while the record is Creating,
/// stop before deleting, sync limits before starting.
pub open spec fn spec_lxd_action(i: InstanceView) -> LxdAction {
    if i.status == StatusView::Creating && (i.external_ip is None || i.node_name is None
        || i.storage_pool is None) {
        LxdAction::Wait
    } else {
        match i.stage {
            InstanceStage::Stopped => if i.status != StatusView::Stopped && i.status
                != StatusView::Missing {
                LxdAction::Stop
            } else {
                LxdAction::Observe
            },
            InstanceStage::Running => if i.status == StatusView::Running {
                LxdAction::Observe
            } else if i.status == StatusView::Creating {
                LxdAction::Create
            } else if i.status != StatusView::Missing {
                LxdAction::SyncAndStart
            } else {
                LxdAction::Observe
            },
            InstanceStage::Deleted => if i.status != StatusView::Deleting {
                LxdAction::Stop
            } else {
                LxdAction::Delete
            },
        }
    }
}

/// Decides the next container/VM action for an instance.
pub fn lxd_action(i: &Instance) -> (r: LxdAction)
    ensures
        r == spec_lxd_action(i@),
{
    if matches!(i.status, InstanceStatus::Creating) && (i.external_ip.is_none()
        || i.node_name.is_none() || i.storage_pool.is_none()) {
        return LxdAction::Wait;
    }
    match i.stage {
        InstanceStage::Stopped => {
            if !i.status.eq_status(&InstanceStatus::Stopped) && !i.status.eq_status(
                &InstanceStatus::Missing,
            ) {
                LxdAction::Stop
            } else {
                LxdAction::Observe
            }
        },
        InstanceStage::Running => {
            if i.status.eq_status(&InstanceStatus::Running) {
                LxdAction::Observe
            } else if i.status.eq_status(&InstanceStatus::Creating) {
                LxdAction::Create
            } else if !i.status.eq_status(&InstanceStatus::Missing) {
                LxdAction::SyncAndStart
            } else {
                LxdAction::Observe
            }
        },
        InstanceStage::Deleted => {
            if !i.status.eq_status(&InstanceStatus::Deleting) {
                LxdAction::Stop
            } else {
                LxdAction::Delete
            }
        },
    }
}

// ---------------------------------------------------------------------------
// Writing an observed backend state back into the store.
// ---------------------------------------------------------------------------

/// Removing one instance preserves the state invariants.
proof fn lemma_wf_after_instance_remove(pre: StateView, uidx: int, iidx: int)
    requires
        state_wf(pre),
        0 <= uidx < pre.users.len(),
        0 <= iidx < pre.users[uidx].instances.len(),
    ensures
        state_wf(
            StateView {
                users: pre.users.update(
                    uidx,
                    UserView {
                        instances: pre.users[uidx].instances.remove(iidx),
                        ..pre.users[uidx]
                    },
                ),
                ..pre
            },
        ),
{
    let oldu = pre.users[uidx];
    let newu = UserView { instances: oldu.instances.remove(iidx), ..oldu };
    let post = StateView { users: pre.users.update(uidx, newu), ..pre };
    lemma_sum_remove(oldu.instances, iidx);
    crate::model::lemma_sum_nonneg(oldu.instances);
    assert(user_wf(newu)) by {
        assert(forall|j: int|
            0 <= j < iidx ==> #[trigger] newu.instances[j] == oldu.instances[j]);
        assert(forall|j: int|
            iidx <= j < newu.instances.len() ==> #[trigger] newu.instances[j] == oldu.instances[j
                + 1]);
        assert(instance_wf(oldu.instances[iidx]));
        assert(oldu.instances[iidx].cpu >= 1 && oldu.instances[iidx].memory >= 1
            && oldu.instances[iidx].disk_size >= 1);
    }
    assert(forall|k: int| 0 <= k < post.users.len() ==> user_wf(#[trigger] post.users[k]));
    assert(usernames_unique(post.users)) by {
        assert(forall|k: int|
            0 <= k < post.users.len() ==> (#[trigger] post.users[k]).username
                == pre.users[k].username);
    }
    assert(external_ips_unique(post.users)) by {
        assert forall|u1: int, i1: int, u2: int, i2: int|
            {
                &&& 0 <= u1 < post.users.len()
                &&& 0 <= i1 < post.users[u1].instances.len()
                &&& 0 <= u2 < post.users.len()
                &&& 0 <= i2 < post.users[u2].instances.len()
                &&& (u1 != u2 || i1 != i2)
                &&& (#[trigger] post.users[u1].instances[i1]).external_ip is Some
            } implies post.users[u1].instances[i1].external_ip != (
        #[trigger] post.users[u2].instances[i2]).external_ip by {
            let j1 = if u1 == uidx && i1 >= iidx {
                i1 + 1
            } else {
                i1
            };
            let j2 = if u2 == uidx && i2 >= iidx {
                i2 + 1
            } else {
                i2
            };
            assert(post.users[u1].instances[i1] == pre.users[u1].instances[j1]);
            assert(post.users[u2].instances[i2] == pre.users[u2].instances[j2]);
        }
    }
}

/// What a pod backend reported about one instance.
#[derive(Clone, Debug)]
pub struct PodObservation {
    /// Pod, volume claim and service are all gone.
    pub all_gone: bool,
    pub status: InstanceStatus,
    pub ssh_host: Option<String>,
    pub ssh_port: Option<i32>,
    pub internal_ip: Option<String>,
    pub external_ip: Option<String>,
    pub node_name: Option<String>,
    pub storage_pool: Option<String>,
}

pub ghost struct PodObservationView {
    pub all_gone: bool,
    pub status: StatusView,
    pub ssh_host: Option<Seq<char>>,
    pub ssh_port: Option<i32>,
    pub internal_ip: Option<Seq<char>>,
    pub external_ip: Option<Seq<char>>,
    pub node_name: Option<Seq<char>>,
    pub storage_pool: Option<Seq<char>>,
}

impl View for PodObservation {
    type V = PodObservationView;

    open spec fn view(&self) -> PodObservationView {
        PodObservationView {
            all_gone: self.all_gone,
            status: self.status@,
            ssh_host: crate::model::opt_view(self.ssh_host),
            ssh_port: self.ssh_port,
            internal_ip: crate::model::opt_view(self.internal_ip),
            external_ip: crate::model::opt_view(self.external_ip),
            node_name: crate::model::opt_view(self.node_name),
            storage_pool: crate::model::opt_view(self.storage_pool),
        }
    }
}

/// Whether some instance other than the one at `(uidx, iidx)` holds `ip`.
pub open spec fn ip_held_by_other(
    users: Seq<UserView>,
    uidx: int,
    iidx: int,
    ip: Seq<char>,
) -> bool {
    exists|u: int, i: int|
        0 <= u < users.len() && 0 <= i < users[u].instances.len() && (u != uidx || i != iidx) && (
        #[trigger] users[u].instances[i]).external_ip == Some(ip)
}

/// The record after a pod observation is folded in: the observed status and
/// addresses replace the old ones; the node name and pool are only ever
/// filled in, never cleared; a discovered external address already held by
/// another instance is not copied in, keeping addresses unique.
pub open spec fn instance_after_pod_observation(
    i: InstanceView,
    o: PodObservationView,
    ip_ok: bool,
) -> InstanceView {
    InstanceView {
        status: o.status,
        ssh_host: o.ssh_host,
        ssh_port: o.ssh_port,
        internal_ip: o.internal_ip,
        external_ip: if ip_ok {
            o.external_ip
        } else {
            i.external_ip
        },
        node_name: if o.node_name is Some {
            o.node_name
        } else {
            i.node_name
        },
        storage_pool: if o.storage_pool is Some {
            o.storage_pool
        } else {
            i.storage_pool
        },
        ..i
    }
}

/// What writing back a pod observation does: under the compare of name and
/// stage (so a record the user re-staged meanwhile is left alone), either
/// the record is removed because everything is gone and deletion was asked,
/// or the observed fields are written.
pub open spec fn pod_writeback_outcome(
    pre: StateView,
    username: Seq<char>,
    name: Seq<char>,
    expected_stage: InstanceStage,
    o: PodObservationView,
    post: StateView,
    changed: bool,
) -> bool {
    let uidx = user_idx(pre.users, username);
    if uidx == -1 {
        !changed && post == pre
    } else {
        let iidx = inst_idx(pre.users[uidx].instances, name);
        if iidx == -1 || pre.users[uidx].instances[iidx].stage != expected_stage {
            !changed && post == pre
        } else if !(pre.users[uidx].instances[iidx].runtime == Runtime::Kata
            || pre.users[uidx].instances[iidx].runtime == Runtime::Runc) {
            !changed && post == pre
        } else if o.all_gone && expected_stage == InstanceStage::Deleted {
            changed && post == (StateView {
                users: pre.users.update(
                    uidx,
                    UserView {
                        instances: pre.users[uidx].instances.remove(iidx),
                        ..pre.users[uidx]
                    },
                ),
                ..pre
            })
        } else {
            let ip_ok = match o.external_ip {
                Some(ip) => !ip_held_by_other(pre.users, uidx, iidx, ip),
                None => true,
            };
            changed && post == state_with_instance(
                pre,
                uidx,
                iidx,
                instance_after_pod_observation(pre.users[uidx].instances[iidx], o, ip_ok),
            )
        }
    }
}

pub fn ip_held_by_other_exec(state: &State, uidx: usize, iidx: usize, ip: &String) -> (r: bool)
    requires
        uidx < state@.users.len(),
        iidx < state@.users[uidx as int].instances.len(),
    ensures
        r == ip_held_by_other(state@.users, uidx as int, iidx as int, ip@),
{
    let ghost usersv = state@.users;
    let ulen = state.users.len();
    let mut u: usize = 0;
    while u < ulen
        invariant
            0 <= u <= ulen,
            ulen == state.users@.len(),
            usersv == state@.users,
            usersv.len() == ulen,
            forall|a: int, b: int|
                0 <= a < u && 0 <= b < usersv[a].instances.len() && (a != uidx as int || b
                    != iidx as int) ==> (#[trigger] usersv[a].instances[b]).external_ip != Some(
                    ip@,
                ),
        decreases ulen - u,
    {
        proof {
            assert(usersv[u as int] == state.users@[u as int]@);
        }
        let ilen = state.users[u].instances.len();
        let mut i: usize = 0;
        while i < ilen
            invariant
                0 <= i <= ilen,
                0 <= u < ulen,
                ulen == state.users@.len(),
                usersv == state@.users,
                usersv.len() == ulen,
                ilen == state.users@[u as int].instances@.len(),
                ilen == usersv[u as int].instances.len(),
                forall|a: int, b: int|
                    0 <= a < u && 0 <= b < usersv[a].instances.len() && (a != uidx as int || b
                        != iidx as int) ==> (#[trigger] usersv[a].instances[b]).external_ip
                        != Some(ip@),
                forall|b: int|
                    0 <= b < i && (u as int != uidx as int || b != iidx as int) ==> (
                    #[trigger] usersv[u as int].instances[b]).external_ip != Some(ip@),
            decreases ilen - i,
        {
            proof {
                assert(usersv[u as int].instances[i as int] == state.users@[u as int].instances@[
                    i as int]@);
            }
            if !(u == uidx && i == iidx) {
                match &state.users[u].instances[i].external_ip {
                    Some(other) => {
                        if str_eq(other.as_str(), ip.as_str()) {
                            return true;
                        }
                    },
                    None => {},
                }
            }
            i += 1;
        }
        u += 1;
    }
    false
}

/// Writes a pod observation back, provided the record still exists under
/// the same desired stage. Returns whether the state changed.
#[verifier::rlimit(60)]
pub fn pod_writeback(
    state: &mut State,
    username: &str,
    instance_name: &str,
    expected_stage: InstanceStage,
    o: &PodObservation,
) -> (changed: bool)
    requires
        state_wf(old(state)@),
    ensures
        state_wf(final(state)@),
        final(state)@.nodes == old(state)@.nodes,
        pod_writeback_outcome(
            old(state)@,
            username@,
            instance_name@,
            expected_stage,
            o@,
            final(state)@,
            changed,
        ),
{
    let ghost prev = old(state)@;
    let uidx = match state.find_mut_user(username) {
        Some(k) => k,
        None => {
            return false;
        },
    };
    proof {
        lemma_user_idx(state@.users, username@);
        assert(state@.users[uidx as int] == state.users@[uidx as int]@);
    }
    let iidx = match state.users[uidx].find_mut_instance(instance_name) {
        Some(k) => k,
        None => {
            proof {
                lemma_inst_idx(state@.users[uidx as int].instances, instance_name@);
            }
            return false;
        },
    };
    proof {
        lemma_inst_idx(state@.users[uidx as int].instances, instance_name@);
        assert(state@.users[uidx as int].instances[iidx as int]
            == state.users@[uidx as int].instances@[iidx as int]@);
    }
    if !(state.users[uidx].instances[iidx].stage == expected_stage) {
        return false;
    }
    if !state.users[uidx].instances[iidx].runtime.is_pod_based() {
        return false;
    }
    if o.all_gone && matches!(expected_stage, InstanceStage::Deleted) {
        let user = &mut state.users[uidx];
        user.instances.remove(iidx);
        proof {
            assert(state@.users[uidx as int].instances =~= prev.users[uidx as int].instances.remove(
                iidx as int,
            ));
            assert(state@.users =~= prev.users.update(
                uidx as int,
                UserView {
                    instances: prev.users[uidx as int].instances.remove(iidx as int),
                    ..prev.users[uidx as int]
                },
            ));
            lemma_wf_after_instance_remove(prev, uidx as int, iidx as int);
            assert(state@ == (StateView {
                users: prev.users.update(
                    uidx as int,
                    UserView {
                        instances: prev.users[uidx as int].instances.remove(iidx as int),
                        ..prev.users[uidx as int]
                    },
                ),
                ..prev
            }));
        }
        return true;
    }
    let ip_ok = match &o.external_ip {
        Some(ip) => !ip_held_by_other_exec(state, uidx, iidx, ip),
        None => true,
    };
    let ghost previ = prev.users[uidx as int].instances[iidx as int];
    let instance = &mut state.users[uidx].instances[iidx];
    instance.status = o.status.clone_status();
    instance.ssh_host = o.ssh_host.clone();
    instance.ssh_port = o.ssh_port;
    instance.internal_ip = o.internal_ip.clone();
    if ip_ok {
        instance.external_ip = o.external_ip.clone();
    }
    if o.node_name.is_some() {
        instance.node_name = o.node_name.clone();
    }
    if o.storage_pool.is_some() {
        instance.storage_pool = o.storage_pool.clone();
    }
    proof {
        let newi = state@.users[uidx as int].instances[iidx as int];
        assert(state@.users[uidx as int].instances =~= prev.users[uidx as int].instances.update(
            iidx as int,
            newi,
        ));
        assert(state@.users =~= state_with_instance(prev, uidx as int, iidx as int, newi).users);
        assert(state@ == state_with_instance(prev, uidx as int, iidx as int, newi));
        assert(newi == instance_after_pod_observation(previ, o@, ip_ok));

        // Invariants: quotas and names untouched; the external address is
        // only written when no other instance holds it.
        let oldu = prev.users[uidx as int];
        let newu = state@.users[uidx as int];
        crate::model::lemma_sum_update(oldu.instances, iidx as int, newi);
        assert(user_wf(newu)) by {
            assert(forall|j: int|
                0 <= j < oldu.instances.len() && j != iidx as int ==> #[trigger] newu.instances[j]
                    == oldu.instances[j]);
            assert(newu.instances[iidx as int] == newi);
        }
        assert(forall|k: int|
            0 <= k < state@.users.len() ==> user_wf(#[trigger] state@.users[k]));
        assert(usernames_unique(state@.users)) by {
            assert(forall|k: int|
                0 <= k < state@.users.len() ==> (#[trigger] state@.users[k]).username
                    == prev.users[k].username);
        }
        assert(external_ips_unique(state@.users)) by {
            assert forall|u1: int, i1: int, u2: int, i2: int|
                {
                    &&& 0 <= u1 < state@.users.len()
                    &&& 0 <= i1 < state@.users[u1].instances.len()
                    &&& 0 <= u2 < state@.users.len()
                    &&& 0 <= i2 < state@.users[u2].instances.len()
                    &&& (u1 != u2 || i1 != i2)
                    &&& (#[trigger] state@.users[u1].instances[i1]).external_ip is Some
                } implies state@.users[u1].instances[i1].external_ip != (
            #[trigger] state@.users[u2].instances[i2]).external_ip by {
                if u1 == uidx as int && i1 == iidx as int {
                    if state@.users[u2].instances[i2].external_ip
                        == state@.users[u1].instances[i1].external_ip {
                        assert(state@.users[u2].instances[i2] == prev.users[u2].instances[i2]);
                        if newi.external_ip == previ.external_ip {
                            assert(prev.users[u1].instances[i1].external_ip == newi.external_ip);
                        } else {
                            assert(ip_ok && o@.external_ip is Some);
                            assert(ip_held_by_other(
                                prev.users,
                                uidx as int,
                                iidx as int,
                                o@.external_ip->Some_0,
                            ));
                        }
                    }
                } else if u2 == uidx as int && i2 == iidx as int {
                    if state@.users[u2].instances[i2].external_ip
                        == state@.users[u1].instances[i1].external_ip {
                        assert(state@.users[u1].instances[i1] == prev.users[u1].instances[i1]);
                        if newi.external_ip == previ.external_ip {
                            assert(prev.users[u2].instances[i2].external_ip == newi.external_ip);
                        } else {
                            assert(ip_ok && o@.external_ip is Some);
                            assert(ip_held_by_other(
                                prev.users,
                                uidx as int,
                                iidx as int,
                                o@.external_ip->Some_0,
                            ));
                        }
                    }
                } else {
                    assert(state@.users[u1].instances[i1] == prev.users[u1].instances[i1]);
                    assert(state@.users[u2].instances[i2] == prev.users[u2].instances[i2]);
                }
            }
        }
        assert(state_wf(state@));
    }
    true
}

/// What writing back a vanished (404) container/VM does: only a
/// container/VM record is touched; one still being created is left alone
/// (the backend has simply not made it yet); a record already marked
/// deleted is removed; anything else is observed Missing.
pub open spec fn lxd_missing_outcome(
    pre: StateView,
    username: Seq<char>,
    name: Seq<char>,
    post: StateView,
    found: bool,
) -> bool {
    let uidx = user_idx(pre.users, username);
    if uidx == -1 {
        !found && post == pre
    } else {
        let iidx = inst_idx(pre.users[uidx].instances, name);
        if iidx == -1 {
            !found && post == pre
        } else if !(pre.users[uidx].instances[iidx].runtime == Runtime::Lxc
            || pre.users[uidx].instances[iidx].runtime == Runtime::Kvm) {
            !found && post == pre
        } else if pre.users[uidx].instances[iidx].status == StatusView::Creating {
            !found && post == pre
        } else if pre.users[uidx].instances[iidx].stage == InstanceStage::Deleted {
            found && post == (StateView {
                users: pre.users.update(
                    uidx,
                    UserView {
                        instances: pre.users[uidx].instances.remove(iidx),
                        ..pre.users[uidx]
                    },
                ),
                ..pre
            })
        } else {
            found && post == state_with_instance(
                pre,
                uidx,
                iidx,
                InstanceView { status: StatusView::Missing, ..pre.users[uidx].instances[iidx] },
            )
        }
    }
}

/// Writes back that the backend no longer has the instance.
pub fn lxd_writeback_missing(state: &mut State, username: &str, instance_name: &str) -> (found:
    bool)
    requires
        state_wf(old(state)@),
    ensures
        state_wf(final(state)@),
        final(state)@.nodes == old(state)@.nodes,
        lxd_missing_outcome(old(state)@, username@, instance_name@, final(state)@, found),
{
    let ghost prev = old(state)@;
    let uidx = match state.find_mut_user(username) {
        Some(k) => k,
        None => {
            return false;
        },
    };
    proof {
        lemma_user_idx(state@.users, username@);
        assert(state@.users[uidx as int] == state.users@[uidx as int]@);
    }
    let iidx = match state.users[uidx].find_mut_instance(instance_name) {
        Some(k) => k,
        None => {
            proof {
                lemma_inst_idx(state@.users[uidx as int].instances, instance_name@);
            }
            return false;
        },
    };
    proof {
        lemma_inst_idx(state@.users[uidx as int].instances, instance_name@);
        assert(state@.users[uidx as int].instances[iidx as int]
            == state.users@[uidx as int].instances@[iidx as int]@);
    }
    if !matches!(state.users[uidx].instances[iidx].runtime, Runtime::Lxc | Runtime::Kvm) {
        return false;
    }
    if state.users[uidx].instances[iidx].status.eq_status(&InstanceStatus::Creating) {
        return false;
    }
    if matches!(state.users[uidx].instances[iidx].stage, InstanceStage::Deleted) {
        let user = &mut state.users[uidx];
        user.instances.remove(iidx);
        proof {
            assert(state@.users[uidx as int].instances =~= prev.users[uidx as int].instances.remove(
                iidx as int,
            ));
            assert(state@.users =~= prev.users.update(
                uidx as int,
                UserView {
                    instances: prev.users[uidx as int].instances.remove(iidx as int),
                    ..prev.users[uidx as int]
                },
            ));
            lemma_wf_after_instance_remove(prev, uidx as int, iidx as int);
            assert(state@ == (StateView {
                users: prev.users.update(
                    uidx as int,
                    UserView {
                        instances: prev.users[uidx as int].instances.remove(iidx as int),
                        ..prev.users[uidx as int]
                    },
                ),
                ..prev
            }));
        }
        return true;
    }
    let ghost previ = prev.users[uidx as int].instances[iidx as int];
    let instance = &mut state.users[uidx].instances[iidx];
    instance.status = InstanceStatus::Missing;
    proof {
        let newi = state@.users[uidx as int].instances[iidx as int];
        assert(state@.users[uidx as int].instances =~= prev.users[uidx as int].instances.update(
            iidx as int,
            newi,
        ));
        assert(state@.users =~= state_with_instance(prev, uidx as int, iidx as int, newi).users);
        assert(state@ == state_with_instance(prev, uidx as int, iidx as int, newi));
        assert(newi == (InstanceView { status: StatusView::Missing, ..previ }));
        lemma_wf_after_instance_update(prev, uidx as int, iidx as int, newi);
    }
    true
}

/// The record after a backend state report is folded in: under desired
/// stage Running the address is refreshed and the status follows the
/// report; under Stopped or Deleted only a reported stop moves the status.
pub open spec fn instance_after_lxd_report(
    i: InstanceView,
    backend_status: Seq<char>,
    internal_ip: Option<Seq<char>>,
) -> InstanceView {
    match i.stage {
        InstanceStage::Stopped => if backend_status == "Stopped"@ {
            InstanceView { status: StatusView::Stopped, ..i }
        } else {
            i
        },
        InstanceStage::Running => {
            let st = if backend_status == "Stopped"@ && i.status == StatusView::Creating {
                StatusView::Starting
            } else if backend_status == "Running"@ {
                StatusView::Running
            } else {
                i.status
            };
            InstanceView { status: st, internal_ip: internal_ip, ..i }
        },
        InstanceStage::Deleted => if backend_status == "Stopped"@ {
            InstanceView { status: StatusView::Deleting, ..i }
        } else {
            i
        },
    }
}

/// What writing back a backend state report does.
pub open spec fn lxd_report_outcome(
    pre: StateView,
    username: Seq<char>,
    name: Seq<char>,
    backend_status: Seq<char>,
    internal_ip: Option<Seq<char>>,
    post: StateView,
    found: bool,
) -> bool {
    let uidx = user_idx(pre.users, username);
    if uidx == -1 {
        !found && post == pre
    } else {
        let iidx = inst_idx(pre.users[uidx].instances, name);
        if iidx == -1 {
            !found && post == pre
        } else if !(pre.users[uidx].instances[iidx].runtime == Runtime::Lxc
            || pre.users[uidx].instances[iidx].runtime == Runtime::Kvm) {
            !found && post == pre
        } else {
            found && post == state_with_instance(
                pre,
                uidx,
                iidx,
                instance_after_lxd_report(
                    pre.users[uidx].instances[iidx],
                    backend_status,
                    internal_ip,
                ),
            )
        }
    }
}

/// Writes back what the backend reported about a container/VM instance.
pub fn lxd_writeback_report(
    state: &mut State,
    username: &str,
    instance_name: &str,
    backend_status: &str,
    internal_ip: Option<String>,
) -> (found: bool)
    requires
        state_wf(old(state)@),
    ensures
        state_wf(final(state)@),
        final(state)@.nodes == old(state)@.nodes,
        lxd_report_outcome(
            old(state)@,
            username@,
            instance_name@,
            backend_status@,
            crate::model::opt_view(internal_ip),
            final(state)@,
            found,
        ),
{
    let ghost prev = old(state)@;
    let uidx = match state.find_mut_user(username) {
        Some(k) => k,
        None => {
            return false;
        },
    };
    proof {
        lemma_user_idx(state@.users, username@);
        assert(state@.users[uidx as int] == state.users@[uidx as int]@);
    }
    let iidx = match state.users[uidx].find_mut_instance(instance_name) {
        Some(k) => k,
        None => {
            proof {
                lemma_inst_idx(state@.users[uidx as int].instances, instance_name@);
            }
            return false;
        },
    };
    proof {
        lemma_inst_idx(state@.users[uidx as int].instances, instance_name@);
        assert(state@.users[uidx as int].instances[iidx as int]
            == state.users@[uidx as int].instances@[iidx as int]@);
    }
    if !matches!(state.users[uidx].instances[iidx].runtime, Runtime::Lxc | Runtime::Kvm) {
        return false;
    }
    let is_stopped = str_eq(backend_status, "Stopped");
    let is_running = str_eq(backend_status, "Running");
    let ghost previ = prev.users[uidx as int].instances[iidx as int];
    let instance = &mut state.users[uidx].instances[iidx];
    match instance.stage {
        InstanceStage::Stopped => {
            if is_stopped {
                instance.status = InstanceStatus::Stopped;
            }
        },
        InstanceStage::Running => {
            if is_stopped && instance.status.eq_status(&InstanceStatus::Creating) {
                instance.status = InstanceStatus::Starting;
            } else if is_running {
                instance.status = InstanceStatus::Running;
            }
            instance.internal_ip = internal_ip;
        },
        InstanceStage::Deleted => {
            if is_stopped {
                instance.status = InstanceStatus::Deleting;
            }
        },
    }
    proof {
        let newi = state@.users[uidx as int].instances[iidx as int];
        assert(state@.users[uidx as int].instances =~= prev.users[uidx as int].instances.update(
            iidx as int,
            newi,
        ));
        assert(state@.users =~= state_with_instance(prev, uidx as int, iidx as int, newi).users);
        assert(state@ == state_with_instance(prev, uidx as int, iidx as int, newi));
        assert(newi == instance_after_lxd_report(
            previ,
            backend_status@,
            crate::model::opt_view(internal_ip),
        ));
        lemma_wf_after_instance_update(prev, uidx as int, iidx as int, newi);
    }
    true
}

// ---------------------------------------------------------------------------
// Idempotence of reconciliation write-backs.
// ---------------------------------------------------------------------------

/// Two sequences of instances with the same names locate names at the same
/// positions.
proof fn lemma_inst_idx_same_names(s1: Seq<InstanceView>, s2: Seq<InstanceView>, name: Seq<char>)
    requires
        s1.len() == s2.len(),
        forall|j: int| 0 <= j < s1.len() ==> (#[trigger] s1[j]).name == (#[trigger] s2[j]).name,
    ensures
        inst_idx(s1, name) == inst_idx(s2, name),
    decreases s1.len(),
{
    if s1.len() > 0 {
        assert(forall|j: int|
            0 <= j < s1.drop_first().len() ==> (#[trigger] s1.drop_first()[j]).name == s1[j + 1].name
                && (#[trigger] s2.drop_first()[j]).name == s2[j + 1].name);
        lemma_inst_idx_same_names(s1.drop_first(), s2.drop_first(), name);
    }
}

/// Idempotent reconciliation, container/VM half: writing back that the
/// backend no longer has an instance twice leaves exactly the state the
/// first write left (the removal or the Missing mark happens once).
pub proof fn lemma_lxd_missing_idempotent(
    pre: StateView,
    username: Seq<char>,
    name: Seq<char>,
    mid: StateView,
    post: StateView,
    f1: bool,
    f2: bool,
)
    requires
        state_wf(pre),
        lxd_missing_outcome(pre, username, name, mid, f1),
        lxd_missing_outcome(mid, username, name, post, f2),
    ensures
        post == mid,
    decreases 0int,
{
    let uidx = user_idx(pre.users, username);
    if uidx != -1 {
        lemma_user_idx(pre.users, username);
        let iidx = inst_idx(pre.users[uidx].instances, name);
        if iidx != -1 {
            lemma_inst_idx(pre.users[uidx].instances, name);
            let i0 = pre.users[uidx].instances[iidx];
            if !(i0.runtime == Runtime::Lxc || i0.runtime == Runtime::Kvm) || i0.status
                == StatusView::Creating {
                // A no-op the first time is a no-op the second time.
                assert(post == mid);
            } else if i0.stage == InstanceStage::Deleted {
                // The record is gone afterwards, so the second pass finds
                // nothing: its name was unique within the user.
                let midu = mid.users[uidx];
                assert(user_idx(mid.users, username) == uidx) by {
                    assert(forall|k: int|
                        0 <= k < mid.users.len() ==> (#[trigger] mid.users[k]).username
                            == pre.users[k].username);
                    lemma_user_idx_same_names(pre.users, mid.users, username);
                }
                assert(inst_idx(midu.instances, name) == -1) by {
                    lemma_inst_idx(midu.instances, name);
                    if inst_idx(midu.instances, name) != -1 {
                        let j = inst_idx(midu.instances, name);
                        let j0 = if j < iidx {
                            j
                        } else {
                            j + 1
                        };
                        assert(midu.instances[j] == pre.users[uidx].instances[j0]);
                        assert(instance_names_unique(pre.users[uidx].instances));
                        assert(pre.users[uidx].instances[j0].name == name);
                        assert(pre.users[uidx].instances[iidx].name == name);
                        assert(j0 != iidx);
                        assert(false);
                    }
                }
            } else {
                // The second pass finds the same record, already Missing,
                // and marks it Missing again.
                assert(user_idx(mid.users, username) == uidx) by {
                    lemma_user_idx_same_names(pre.users, mid.users, username);
                }
                let midu = mid.users[uidx];
                assert(inst_idx(midu.instances, name) == iidx) by {
                    lemma_inst_idx_same_names(pre.users[uidx].instances, midu.instances, name);
                }
                let i1 = midu.instances[iidx];
                assert(i1 == (InstanceView { status: StatusView::Missing, ..i0 }));
                assert(i1.stage == i0.stage);
                let i2 = InstanceView { status: StatusView::Missing, ..i1 };
                assert(i2 == i1);
                assert(post.users[uidx].instances =~= mid.users[uidx].instances);
                assert(post.users[uidx] == mid.users[uidx]);
                assert(post.users =~= mid.users);
            }
        }
    }
}

/// Two sequences of users with the same usernames locate a username at the
/// same position.
proof fn lemma_user_idx_same_names(s1: Seq<UserView>, s2: Seq<UserView>, username: Seq<char>)
    requires
        s1.len() == s2.len(),
        forall|j: int| 0 <= j < s1.len() ==> (#[trigger] s1[j]).username == (
        #[trigger] s2[j]).username,
    ensures
        user_idx(s1, username) == user_idx(s2, username),
    decreases s1.len(),
{
    if s1.len() > 0 {
        assert(forall|j: int|
            0 <= j < s1.drop_first().len() ==> (#[trigger] s1.drop_first()[j]).username == s1[j
                + 1].username && (#[trigger] s2.drop_first()[j]).username == s2[j + 1].username);
        lemma_user_idx_same_names(s1.drop_first(), s2.drop_first(), username);
    }
}

/// Idempotent reconciliation, container/VM half: folding the same backend
/// report in twice changes nothing the second time.
pub proof fn lemma_lxd_report_idempotent(
    pre: StateView,
    username: Seq<char>,
    name: Seq<char>,
    backend_status: Seq<char>,
    internal_ip: Option<Seq<char>>,
    mid: StateView,
    post: StateView,
    f1: bool,
    f2: bool,
)
    requires
        lxd_report_outcome(pre, username, name, backend_status, internal_ip, mid, f1),
        lxd_report_outcome(mid, username, name, backend_status, internal_ip, post, f2),
    ensures
        post == mid,
{
    let uidx = user_idx(pre.users, username);
    if uidx != -1 {
        lemma_user_idx(pre.users, username);
        let iidx = inst_idx(pre.users[uidx].instances, name);
        if iidx != -1 {
            lemma_inst_idx(pre.users[uidx].instances, name);
            let i0 = pre.users[uidx].instances[iidx];
            if !(i0.runtime == Runtime::Lxc || i0.runtime == Runtime::Kvm) {
                // A no-op the first time is a no-op the second time.
                assert(post == mid);
            } else {
                let i1 = instance_after_lxd_report(i0, backend_status, internal_ip);
                assert(user_idx(mid.users, username) == uidx) by {
                    lemma_user_idx_same_names(pre.users, mid.users, username);
                }
                assert(inst_idx(mid.users[uidx].instances, name) == iidx) by {
                    lemma_inst_idx_same_names(
                        pre.users[uidx].instances,
                        mid.users[uidx].instances,
                        name,
                    );
                }
                assert(mid.users[uidx].instances[iidx] == i1);
                let i2 = instance_after_lxd_report(i1, backend_status, internal_ip);
                assert("Stopped"@ != "Running"@) by {
                    reveal_strlit("Stopped");
                    reveal_strlit("Running");
                    assert(("Stopped"@)[0] != ("Running"@)[0]);
                }
                assert(i2 == i1);
                assert(post.users[uidx].instances =~= mid.users[uidx].instances);
                assert(post.users[uidx] == mid.users[uidx]);
                assert(post.users =~= mid.users);
            }
        }
    }
}

/// Idempotent reconciliation, pod half: folding the same pod observation in
/// twice changes nothing the second time. A removal happens once (the name
/// is unique within its user), a field write settles after the first pass.
pub proof fn lemma_pod_writeback_idempotent(
    pre: StateView,
    username: Seq<char>,
    name: Seq<char>,
    expected_stage: InstanceStage,
    o: PodObservationView,
    mid: StateView,
    post: StateView,
    c1: bool,
    c2: bool,
)
    requires
        state_wf(pre),
        pod_writeback_outcome(pre, username, name, expected_stage, o, mid, c1),
        pod_writeback_outcome(mid, username, name, expected_stage, o, post, c2),
    ensures
        post == mid,
{
    let uidx = user_idx(pre.users, username);
    if uidx != -1 {
        lemma_user_idx(pre.users, username);
        let iidx = inst_idx(pre.users[uidx].instances, name);
        if iidx != -1 {
            lemma_inst_idx(pre.users[uidx].instances, name);
            let i0 = pre.users[uidx].instances[iidx];
            if i0.stage == expected_stage && (i0.runtime == Runtime::Kata || i0.runtime
                == Runtime::Runc) {
                if o.all_gone && expected_stage == InstanceStage::Deleted {
                    // Removed once; the second pass finds nothing.
                    let midu = mid.users[uidx];
                    assert(user_idx(mid.users, username) == uidx) by {
                        lemma_user_idx_same_names(pre.users, mid.users, username);
                    }
                    assert(inst_idx(midu.instances, name) == -1) by {
                        lemma_inst_idx(midu.instances, name);
                        if inst_idx(midu.instances, name) != -1 {
                            let j = inst_idx(midu.instances, name);
                            let j0 = if j < iidx {
                                j
                            } else {
                                j + 1
                            };
                            assert(midu.instances[j] == pre.users[uidx].instances[j0]);
                            assert(instance_names_unique(pre.users[uidx].instances));
                            assert(pre.users[uidx].instances[j0].name == name);
                            assert(pre.users[uidx].instances[iidx].name == name);
                            assert(j0 != iidx);
                            assert(false);
                        }
                    }
                } else {
                    let ip_ok1 = match o.external_ip {
                        Some(ip) => !ip_held_by_other(pre.users, uidx, iidx, ip),
                        None => true,
                    };
                    let i1 = instance_after_pod_observation(i0, o, ip_ok1);
                    assert(user_idx(mid.users, username) == uidx) by {
                        lemma_user_idx_same_names(pre.users, mid.users, username);
                    }
                    assert(inst_idx(mid.users[uidx].instances, name) == iidx) by {
                        lemma_inst_idx_same_names(
                            pre.users[uidx].instances,
                            mid.users[uidx].instances,
                            name,
                        );
                    }
                    assert(mid.users[uidx].instances[iidx] == i1);
                    // The second pass sees the same holders elsewhere, so it
                    // takes the same decision about the address.
                    let ip_ok2 = match o.external_ip {
                        Some(ip) => !ip_held_by_other(mid.users, uidx, iidx, ip),
                        None => true,
                    };
                    assert(ip_ok2 == ip_ok1) by {
                        match o.external_ip {
                            Some(ip) => {
                                assert forall|a: int, b: int|
                                    0 <= a < mid.users.len() && 0 <= b
                                        < mid.users[a].instances.len() && (a != uidx || b != iidx)
                                        implies (#[trigger] mid.users[a].instances[b]).external_ip
                                    == pre.users[a].instances[b].external_ip by {
                                    if a != uidx {
                                        assert(mid.users[a] == pre.users[a]);
                                    } else {
                                        assert(mid.users[a].instances[b]
                                            == pre.users[a].instances[b]);
                                    }
                                }
                                if ip_held_by_other(pre.users, uidx, iidx, ip) {
                                    let (a, b) = choose|a: int, b: int|
                                        0 <= a < pre.users.len() && 0 <= b
                                            < pre.users[a].instances.len() && (a != uidx || b
                                            != iidx) && (
                                        #[trigger] pre.users[a].instances[b]).external_ip == Some(
                                            ip,
                                        );
                                    assert(mid.users[a].instances[b].external_ip == Some(ip));
                                }
                                if ip_held_by_other(mid.users, uidx, iidx, ip) {
                                    let (a, b) = choose|a: int, b: int|
                                        0 <= a < mid.users.len() && 0 <= b
                                            < mid.users[a].instances.len() && (a != uidx || b
                                            != iidx) && (
                                        #[trigger] mid.users[a].instances[b]).external_ip == Some(
                                            ip,
                                        );
                                    assert(pre.users[a].instances[b].external_ip == Some(ip));
                                }
                            },
                            None => {},
                        }
                    }
                    let i2 = instance_after_pod_observation(i1, o, ip_ok2);
                    assert(i2 == i1);
                    assert(post.users[uidx].instances =~= mid.users[uidx].instances);
                    assert(post.users[uidx] == mid.users[uidx]);
                    assert(post.users =~= mid.users);
                }
            }
        }
    }
}


// ---------------------------------------------------------------------------
// The documents handed to the container/VM backend on create, and the
// limits-sync decision. The REST envelopes around them live outside.
// ---------------------------------------------------------------------------

/// The cloud-init user data for a new instance: hostname and a root
/// password.
pub open spec fn spec_lxd_user_data(name: Seq<char>, password: Seq<char>) -> Seq<char> {
    "#cloud-config\nhostname: "@ + name + "\nfqdn: "@ + name
        + "\nssh_pwauth: true\ndisable_root: false\nchpasswd:\n  expire: false\n  list:\n  - root:"@
        + password + "\n"@
}

/// Renders the cloud-init user data for a new instance.
pub fn lxd_user_data(name: &str, password: &str) -> (r: String)
    ensures
        r@ == spec_lxd_user_data(name@, password@),
{
    let mut out = "#cloud-config\nhostname: ".to_owned();
    out.append(name);
    out.append("\nfqdn: ");
    out.append(name);
    out.append(
        "\nssh_pwauth: true\ndisable_root: false\nchpasswd:\n  expire: false\n  list:\n  - root:",
    );
    out.append(password);
    out.append("\n");
    proof {
        assert(out@ =~= spec_lxd_user_data(name@, password@));
    }
    out
}

/// The static address with its prefix length.
pub open spec fn spec_lxd_eip(external_ip: Seq<char>, prefix: int) -> Seq<char> {
    external_ip + "/"@ + crate::text::dec_str(prefix)
}

/// The cloud-init network configuration: DHCP on the first interface and
/// the allocated address statically on the second. The CentOS images take
/// the version-1 document; the Ubuntu images take the version-2 document,
/// whose interface names differ for virtual machines.
pub open spec fn spec_lxd_network_config(
    image: crate::model::Image,
    runtime: Runtime,
    external_ip: Seq<char>,
    prefix: int,
) -> Seq<char> {
    let eip = spec_lxd_eip(external_ip, prefix);
    match image {
        crate::model::Image::CentOS7 | crate::model::Image::CentOS8
            | crate::model::Image::CentOS9Stream =>
            "network:\n  version: 1\n  config:\n  - type: physical\n    name: eth0\n    subnets:\n    - type: dhcp\n  - type: physical\n    name: eth1\n    subnets:\n    - type: static\n      address: "@
                + eip + "\n"@,
        crate::model::Image::Ubuntu2004 | crate::model::Image::Ubuntu2204 => {
            let eth0: Seq<char> = if runtime == Runtime::Kvm {
                "enp5s0"@
            } else {
                "eth0"@
            };
            let eth1: Seq<char> = if runtime == Runtime::Kvm {
                "enp6s0"@
            } else {
                "eth1"@
            };
            "network:\n  version: 2\n  ethernets:\n    eth0:\n      match:\n        name: "@ + eth0
                + "\n      dhcp4: true\n      dhcp6: false\n    eth1:\n      match:\n        name: "@
                + eth1
                + "\n      dhcp4: false\n      dhcp6: false\n      addresses:\n      - "@ + eip
                + "\n"@
        },
    }
}

/// Renders the cloud-init network configuration.
pub fn lxd_network_config(
    image: crate::model::Image,
    runtime: Runtime,
    external_ip: &str,
    prefix: usize,
) -> (r: String)
    ensures
        r@ == spec_lxd_network_config(image, runtime, external_ip@, prefix as int),
{
    let mut eip = external_ip.to_owned();
    eip.append("/");
    let p = crate::text::usize_to_string(prefix);
    eip.append(p.as_str());
    proof {
        assert(eip@ =~= spec_lxd_eip(external_ip@, prefix as int));
    }
    match image {
        crate::model::Image::CentOS7 | crate::model::Image::CentOS8
            | crate::model::Image::CentOS9Stream => {
            let mut out =
                "network:\n  version: 1\n  config:\n  - type: physical\n    name: eth0\n    subnets:\n    - type: dhcp\n  - type: physical\n    name: eth1\n    subnets:\n    - type: static\n      address: ".to_owned();
            out.append(eip.as_str());
            out.append("\n");
            proof {
                assert(out@ =~= spec_lxd_network_config(
                    image,
                    runtime,
                    external_ip@,
                    prefix as int,
                ));
            }
            out
        },
        crate::model::Image::Ubuntu2004 | crate::model::Image::Ubuntu2204 => {
            let eth0: &str = if matches!(runtime, Runtime::Kvm) {
                "enp5s0"
            } else {
                "eth0"
            };
            let eth1: &str = if matches!(runtime, Runtime::Kvm) {
                "enp6s0"
            } else {
                "eth1"
            };
            let mut out =
                "network:\n  version: 2\n  ethernets:\n    eth0:\n      match:\n        name: ".to_owned();
            out.append(eth0);
            out.append("\n      dhcp4: true\n      dhcp6: false\n    eth1:\n      match:\n        name: ");
            out.append(eth1);
            out.append("\n      dhcp4: false\n      dhcp6: false\n      addresses:\n      - ");
            out.append(eip.as_str());
            out.append("\n");
            proof {
                assert(out@ =~= spec_lxd_network_config(
                    image,
                    runtime,
                    external_ip@,
                    prefix as int,
                ));
            }
            out
        },
    }
}

/// Whether the limits of a stopped backend instance must be patched before
/// it starts: the reported config differs from the declared cpu count or
/// from the declared memory in GiB. A backend not reporting Stopped is left
/// alone (limits change only while stopped).
pub fn lxd_limits_patch(
    cpu: usize,
    memory: usize,
    reported: &str,
    cpu_limit: &str,
    memory_limit: &str,
) -> (r: bool)
    ensures
        r == (reported@ == "Stopped"@ && (cpu_limit@ != crate::text::dec_str(cpu as int)
            || memory_limit@ != crate::text::dec_str(memory as int) + "GiB"@)),
{
    if !str_eq(reported, "Stopped") {
        return false;
    }
    let cpu_s = crate::text::usize_to_string(cpu);
    let mut memory_s = crate::text::usize_to_string(memory);
    memory_s.append("GiB");
    !str_eq(cpu_limit, cpu_s.as_str()) || !str_eq(memory_limit, memory_s.as_str())
}


// ---------------------------------------------------------------------------
// Deriving the observed status from what the pod backend reports.
// ---------------------------------------------------------------------------

/// The observed status after one pod lookup: a running pod means Running; a
/// pod in any other phase taints a previously live record with the phase as
/// an error; a vanished pod means Stopped when stopping was asked, and
/// Missing when the record was thought live; everything else keeps its
/// status. Under desired stage Deleted the status is left alone (removal is
/// decided by whether every resource is gone).
pub open spec fn spec_pod_observed_status(
    stage: InstanceStage,
    old_status: StatusView,
    pod_found: bool,
    phase: Seq<char>,
) -> StatusView {
    match stage {
        InstanceStage::Stopped => if !pod_found {
            StatusView::Stopped
        } else {
            old_status
        },
        InstanceStage::Running => if pod_found {
            if phase == "Running"@ {
                StatusView::Running
            } else if old_status is Running || old_status is Missing || old_status is Error {
                StatusView::Error("Pod is "@ + phase)
            } else {
                old_status
            }
        } else {
            if old_status is Running || old_status is Error {
                StatusView::Missing
            } else {
                old_status
            }
        },
        InstanceStage::Deleted => old_status,
    }
}

/// Derives the observed status from a pod lookup; `pod_found` is false when
/// the backend answered that the pod does not exist, and `phase` is the
/// reported pod phase (empty when unset).
pub fn pod_observed_status(
    stage: InstanceStage,
    old_status: &InstanceStatus,
    pod_found: bool,
    phase: &str,
) -> (r: InstanceStatus)
    ensures
        r@ == spec_pod_observed_status(stage, old_status@, pod_found, phase@),
{
    match stage {
        InstanceStage::Stopped => {
            if !pod_found {
                InstanceStatus::Stopped
            } else {
                old_status.clone_status()
            }
        },
        InstanceStage::Running => {
            if pod_found {
                if str_eq(phase, "Running") {
                    InstanceStatus::Running
                } else if matches!(
                    old_status,
                    InstanceStatus::Running | InstanceStatus::Missing | InstanceStatus::Error(_)
                ) {
                    let mut msg = "Pod is ".to_owned();
                    msg.append(phase);
                    InstanceStatus::Error(msg)
                } else {
                    old_status.clone_status()
                }
            } else {
                if matches!(old_status, InstanceStatus::Running | InstanceStatus::Error(_)) {
                    InstanceStatus::Missing
                } else {
                    old_status.clone_status()
                }
            }
        },
        InstanceStage::Deleted => old_status.clone_status(),
    }
}

} // verus!
