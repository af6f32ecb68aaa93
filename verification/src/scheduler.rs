//! The scheduler: hands external IPs to container/VM instances from a
//! configured pool, and assigns a node (and storage pool) to every instance
//! awaiting placement, picking the best fit and accounting for what it
//! hands out so that placement never oversubscribes a node.

use vstd::prelude::*;

use crate::admission::{max2, pool_fits, state_with_instance};
use crate::model::{
    allocations_synced, cpu_on_node, disk_on_node, disk_on_pool, external_ips_unique,
    instance_names_unique, lemma_state_resources_nonneg, memory_on_node, node_with_allocations,
    nodes_wf, state_cpu_on, state_disk_on, state_disk_on_pool, state_memory_on, state_wf, sum_cpu,
    sum_disk, sum_memory, user_wf, usernames_unique, users_resources_nonneg, Instance,
    InstanceStatus,
    InstanceView, Node, NodeView, Runtime, State, StateView, StatusView, StoragePool,
    StoragePoolView, User, UserView,
};
use crate::text::{str_eq, string_eq_str};

verus! {

// ---------------------------------------------------------------------------
// Domination: allocation counters at least as large as what the instances
// actually claim. Syncing makes them equal; placement keeps them dominating.
// ---------------------------------------------------------------------------

/// Every node's counters are at least the claims of the current instances.
pub open spec fn allocations_dominated(s: StateView) -> bool {
    forall|k: int|
        0 <= k < s.nodes.len() ==> {
            let n = #[trigger] s.nodes[k];
            &&& n.cpu_allocated >= state_cpu_on(s.users, n.name)
            &&& n.memory_allocated >= state_memory_on(s.users, n.name)
            &&& n.storage_allocated >= state_disk_on(s.users, n.name)
            &&& forall|p: int|
                0 <= p < n.storage_pools.len() ==> (#[trigger] n.storage_pools[p]).allocated
                    >= state_disk_on_pool(s.users, n.name, n.storage_pools[p].name)
        }
}

/// Freshly synced counters dominate trivially.
pub proof fn lemma_synced_implies_dominated(s: StateView)
    requires
        allocations_synced(s),
    ensures
        allocations_dominated(s),
{
    assert forall|k: int| 0 <= k < s.nodes.len() implies {
        let n = #[trigger] s.nodes[k];
        &&& n.cpu_allocated >= state_cpu_on(s.users, n.name)
        &&& n.memory_allocated >= state_memory_on(s.users, n.name)
        &&& n.storage_allocated >= state_disk_on(s.users, n.name)
        &&& forall|p: int|
            0 <= p < n.storage_pools.len() ==> (#[trigger] n.storage_pools[p]).allocated
                >= state_disk_on_pool(s.users, n.name, n.storage_pools[p].name)
    } by {
        let n = s.nodes[k];
        let m = node_with_allocations(n, s.users);
        assert(n == m);
        assert forall|p: int|
            0 <= p < n.storage_pools.len() implies (#[trigger] n.storage_pools[p]).allocated
            >= state_disk_on_pool(s.users, n.name, n.storage_pools[p].name) by {
            assert(n.storage_pools[p] == m.storage_pools[p]);
        }
    }
}

/// A node whose counters stay within its capacity.
pub open spec fn node_counters_feasible(n: NodeView) -> bool {
    &&& n.cpu_allocated <= n.cpu_total
    &&& n.memory_allocated <= n.memory_total
    &&& n.storage_allocated <= n.storage_total
    &&& forall|p: int|
        0 <= p < n.storage_pools.len() ==> (#[trigger] n.storage_pools[p]).allocated
            <= n.storage_pools[p].total
}

/// Every node's counters stay within its capacity.
pub open spec fn placement_counters_feasible(s: StateView) -> bool {
    forall|k: int| 0 <= k < s.nodes.len() ==> node_counters_feasible(#[trigger] s.nodes[k])
}

/// What the instances actually claim stays within every node's capacity.
pub open spec fn placement_feasible(s: StateView) -> bool {
    forall|k: int|
        0 <= k < s.nodes.len() ==> {
            let n = #[trigger] s.nodes[k];
            &&& state_cpu_on(s.users, n.name) <= n.cpu_total
            &&& state_memory_on(s.users, n.name) <= n.memory_total
            &&& state_disk_on(s.users, n.name) <= n.storage_total
            &&& forall|p: int|
                0 <= p < n.storage_pools.len() ==> state_disk_on_pool(
                    s.users,
                    n.name,
                    (#[trigger] n.storage_pools[p]).name,
                ) <= n.storage_pools[p].total
        }
}

/// Placement feasibility: counters that dominate the real claims and stay
/// within capacity bound the real claims by capacity.
pub proof fn lemma_placement_feasibility(s: StateView)
    requires
        allocations_dominated(s),
        placement_counters_feasible(s),
    ensures
        placement_feasible(s),
{
}

// ---------------------------------------------------------------------------
// How the claim sums react to updating one instance or one user.
// ---------------------------------------------------------------------------

pub proof fn lemma_claims_update_inst(
    s: Seq<InstanceView>,
    i: int,
    newi: InstanceView,
    node: Seq<char>,
    pool: Seq<char>,
)
    requires
        0 <= i < s.len(),
    ensures
        cpu_on_node(s.update(i, newi), node) == cpu_on_node(s, node) - (if s[i].node_name == Some(
            node,
        ) {
            s[i].cpu
        } else {
            0
        }) + (if newi.node_name == Some(node) {
            newi.cpu
        } else {
            0
        }),
        memory_on_node(s.update(i, newi), node) == memory_on_node(s, node) - (if s[i].node_name
            == Some(node) {
            s[i].memory
        } else {
            0
        }) + (if newi.node_name == Some(node) {
            newi.memory
        } else {
            0
        }),
        disk_on_node(s.update(i, newi), node) == disk_on_node(s, node) - (if s[i].node_name == Some(
            node,
        ) {
            s[i].disk_size
        } else {
            0
        }) + (if newi.node_name == Some(node) {
            newi.disk_size
        } else {
            0
        }),
        disk_on_pool(s.update(i, newi), node, pool) == disk_on_pool(s, node, pool) - (
        if s[i].node_name == Some(node) && s[i].storage_pool == Some(pool) {
            s[i].disk_size
        } else {
            0
        }) + (if newi.node_name == Some(node) && newi.storage_pool == Some(pool) {
            newi.disk_size
        } else {
            0
        }),
    decreases s.len(),
{
    if i == 0 {
        assert(s.update(0, newi).drop_first() =~= s.drop_first());
        assert(s.update(0, newi).first() == newi);
    } else {
        lemma_claims_update_inst(s.drop_first(), i - 1, newi, node, pool);
        assert(s.update(i, newi).drop_first() =~= s.drop_first().update(i - 1, newi));
        assert(s.update(i, newi).first() == s.first());
    }
}

pub proof fn lemma_claims_update_user(
    users: Seq<UserView>,
    u: int,
    newu: UserView,
    node: Seq<char>,
    pool: Seq<char>,
)
    requires
        0 <= u < users.len(),
    ensures
        state_cpu_on(users.update(u, newu), node) == state_cpu_on(users, node) - cpu_on_node(
            users[u].instances,
            node,
        ) + cpu_on_node(newu.instances, node),
        state_memory_on(users.update(u, newu), node) == state_memory_on(users, node)
            - memory_on_node(users[u].instances, node) + memory_on_node(newu.instances, node),
        state_disk_on(users.update(u, newu), node) == state_disk_on(users, node) - disk_on_node(
            users[u].instances,
            node,
        ) + disk_on_node(newu.instances, node),
        state_disk_on_pool(users.update(u, newu), node, pool) == state_disk_on_pool(
            users,
            node,
            pool,
        ) - disk_on_pool(users[u].instances, node, pool) + disk_on_pool(
            newu.instances,
            node,
            pool,
        ),
    decreases users.len(),
{
    if u == 0 {
        assert(users.update(0, newu).drop_first() =~= users.drop_first());
        assert(users.update(0, newu).first() == newu);
    } else {
        lemma_claims_update_user(users.drop_first(), u - 1, newu, node, pool);
        assert(users.update(u, newu).drop_first() =~= users.drop_first().update(u - 1, newu));
        assert(users.update(u, newu).first() == users.first());
    }
}

// ---------------------------------------------------------------------------
// IP allocation.
// ---------------------------------------------------------------------------

/// Whether some instance currently holds this external IP.
pub open spec fn ip_held(users: Seq<UserView>, ip: Seq<char>) -> bool {
    exists|u: int, i: int|
        0 <= u < users.len() && 0 <= i < users[u].instances.len() && (
        #[trigger] users[u].instances[i]).external_ip == Some(ip)
}

/// Picks an address from the pool that no instance holds.
fn pick_free_ip(users: &Vec<User>, ip_pool: &Vec<String>) -> (r: Option<String>)
    ensures
        ({
            let usersv = users@.map_values(|u: User| u@);
            match r {
                Some(ip) => (exists|j: int| 0 <= j < ip_pool@.len() && (#[trigger] ip_pool@[j])@
                    == ip@) && !ip_held(usersv, ip@),
                None => forall|j: int|
                    0 <= j < ip_pool@.len() ==> ip_held(usersv, (#[trigger] ip_pool@[j])@),
            }
        }),
{
    let ghost usersv = users@.map_values(|u: User| u@);
    let plen = ip_pool.len();
    let mut j: usize = 0;
    while j < plen
        invariant
            0 <= j <= plen,
            plen == ip_pool@.len(),
            usersv == users@.map_values(|u: User| u@),
            forall|q: int| 0 <= q < j ==> ip_held(usersv, (#[trigger] ip_pool@[q])@),
        decreases plen - j,
    {
        let candidate = &ip_pool[j];
        let mut held = false;
        let ulen = users.len();
        let mut u: usize = 0;
        while u < ulen
            invariant
                0 <= u <= ulen,
                ulen == users@.len(),
                usersv == users@.map_values(|u: User| u@),
                usersv.len() == ulen,
                candidate == ip_pool@[j as int],
                held ==> ip_held(usersv, candidate@),
                !held ==> forall|a: int, b: int|
                    0 <= a < u && 0 <= b < usersv[a].instances.len() ==> (
                    #[trigger] usersv[a].instances[b]).external_ip != Some(candidate@),
            ensures
                held || u == ulen,
            decreases ulen - u,
        {
            assert(usersv[u as int] == users@[u as int]@);
            let usr = &users[u];
            let ilen = usr.instances.len();
            proof {
                assert(usr@.instances.len() == ilen);
            }
            let mut i: usize = 0;
            while i < ilen
                invariant
                    0 <= i <= ilen,
                    ilen == usr.instances@.len(),
                    0 <= u < usersv.len(),
                    usersv[u as int] == usr@,
                    usersv == users@.map_values(|u: User| u@),
                    candidate == ip_pool@[j as int],
                    held ==> ip_held(usersv, candidate@),
                    !held ==> forall|b: int|
                        0 <= b < i ==> (#[trigger] usr@.instances[b]).external_ip != Some(
                            candidate@,
                        ),
                    !held ==> forall|a: int, b: int|
                        0 <= a < u && 0 <= b < usersv[a].instances.len() ==> (
                        #[trigger] usersv[a].instances[b]).external_ip != Some(candidate@),
                decreases ilen - i,
            {
                assert(usr@.instances[i as int] == usr.instances@[i as int]@);
                match &usr.instances[i].external_ip {
                    Some(ip) => {
                        if str_eq(ip.as_str(), candidate.as_str()) {
                            held = true;
                        }
                    },
                    None => {},
                }
                i += 1;
            }
            if held {
                break;
            }
            proof {
                assert(usersv[u as int].instances.len() == ilen);
                assert(forall|b: int|
                    0 <= b < ilen ==> (#[trigger] usr@.instances[b]).external_ip != Some(
                        candidate@,
                    ));
                assert(forall|b: int|
                    0 <= b < usersv[u as int].instances.len() ==> (#[trigger] usersv[
                        u as int].instances[b]).external_ip != Some(candidate@));
                assert forall|a: int, b: int|
                    0 <= a < u as int + 1 && 0 <= b < usersv[a].instances.len() implies (
                #[trigger] usersv[a].instances[b]).external_ip != Some(candidate@) by {
                    if a == u as int {
                        assert(usersv[a].instances[b].external_ip != Some(candidate@));
                    }
                }
            }
            u += 1;
        }
        if !held {
            proof {
                assert(!ip_held(usersv, candidate@)) by {
                    if ip_held(usersv, candidate@) {
                        let (a, b) = choose|a: int, b: int|
                            0 <= a < usersv.len() && 0 <= b < usersv[a].instances.len() && (
                            #[trigger] usersv[a].instances[b]).external_ip == Some(candidate@);
                        assert(usersv[a].instances[b].external_ip != Some(candidate@));
                    }
                }
            }
            return Some(candidate.clone());
        }
        j += 1;
    }
    None
}

/// The users after one instance takes an address.
pub open spec fn users_with_ip(
    users: Seq<UserView>,
    u: int,
    i: int,
    ip: Seq<char>,
) -> Seq<UserView> {
    users.update(
        u,
        UserView {
            instances: users[u].instances.update(
                i,
                InstanceView { external_ip: Some(ip), ..users[u].instances[i] },
            ),
            ..users[u]
        },
    )
}

/// Handing a fresh address to an instance that had none keeps the IPs
/// unique.
proof fn lemma_ips_unique_after_assign(users: Seq<UserView>, u: int, i: int, ip: Seq<char>)
    requires
        external_ips_unique(users),
        0 <= u < users.len(),
        0 <= i < users[u].instances.len(),
        !ip_held(users, ip),
    ensures
        external_ips_unique(users_with_ip(users, u, i, ip)),
{
    let post = users_with_ip(users, u, i, ip);
    assert forall|u1: int, i1: int, u2: int, i2: int|
        {
            &&& 0 <= u1 < post.len()
            &&& 0 <= i1 < post[u1].instances.len()
            &&& 0 <= u2 < post.len()
            &&& 0 <= i2 < post[u2].instances.len()
            &&& (u1 != u2 || i1 != i2)
            &&& (#[trigger] post[u1].instances[i1]).external_ip is Some
        } implies post[u1].instances[i1].external_ip != (
    #[trigger] post[u2].instances[i2]).external_ip by {
        if u1 == u && i1 == i {
            assert(post[u1].instances[i1].external_ip == Some(ip));
            assert(post[u2].instances[i2] == users[u2].instances[i2]);
            if post[u2].instances[i2].external_ip == Some(ip) {
                assert(ip_held(users, ip));
            }
        } else {
            assert(post[u1].instances[i1] == users[u1].instances[i1]);
            if u2 == u && i2 == i {
                assert(post[u2].instances[i2].external_ip == Some(ip));
                if post[u1].instances[i1].external_ip == Some(ip) {
                    assert(ip_held(users, ip));
                }
            } else {
                assert(post[u2].instances[i2] == users[u2].instances[i2]);
            }
        }
    }
}

/// Instances that differ from `pre` only by external IPs, each taken from
/// the pool and only where there was none before.
pub open spec fn only_ips_assigned(
    pre: Seq<UserView>,
    post: Seq<UserView>,
    pool: Seq<Seq<char>>,
) -> bool {
    &&& post.len() == pre.len()
    &&& forall|u: int|
        0 <= u < pre.len() ==> {
            let pu = #[trigger] pre[u];
            let qu = #[trigger] post[u];
            &&& qu.username == pu.username
            &&& qu.cpu_quota == pu.cpu_quota
            &&& qu.memory_quota == pu.memory_quota
            &&& qu.disk_quota == pu.disk_quota
            &&& qu.instance_quota == pu.instance_quota
            &&& qu.instances.len() == pu.instances.len()
            &&& forall|i: int|
                0 <= i < pu.instances.len() ==> {
                    let pi = #[trigger] pu.instances[i];
                    let qi = #[trigger] qu.instances[i];
                    ||| qi == pi
                    ||| {
                        &&& pi.external_ip is None
                        &&& pi.runtime == Runtime::Lxc || pi.runtime == Runtime::Kvm
                        &&& qi == (InstanceView { external_ip: qi.external_ip, ..pi })
                        &&& qi.external_ip is Some
                        &&& pool.contains(qi.external_ip->Some_0)
                    }
                }
        }
}

/// Every address of the pool is held by some instance.
pub open spec fn pool_exhausted(users: Seq<UserView>, pool: Seq<Seq<char>>) -> bool {
    forall|j: int| 0 <= j < pool.len() ==> ip_held(users, #[trigger] pool[j])
}

/// Handing a fresh address to an instance preserves the state invariants.
proof fn lemma_wf_after_ip_assign(users: Seq<UserView>, u: int, i: int, ip: Seq<char>)
    requires
        forall|k: int| 0 <= k < users.len() ==> user_wf(#[trigger] users[k]),
        usernames_unique(users),
        external_ips_unique(users),
        0 <= u < users.len(),
        0 <= i < users[u].instances.len(),
        !ip_held(users, ip),
    ensures
        ({
            let post = users_with_ip(users, u, i, ip);
            &&& forall|k: int| 0 <= k < post.len() ==> user_wf(#[trigger] post[k])
            &&& usernames_unique(post)
            &&& external_ips_unique(post)
        }),
{
    let post = users_with_ip(users, u, i, ip);
    let newi = InstanceView { external_ip: Some(ip), ..users[u].instances[i] };
    crate::model::lemma_sum_update(users[u].instances, i, newi);
    assert(user_wf(post[u])) by {
        assert(forall|j: int|
            0 <= j < users[u].instances.len() && j != i ==> #[trigger] post[u].instances[j]
                == users[u].instances[j]);
        assert(post[u].instances[i] == newi);
    }
    assert(forall|k: int| 0 <= k < post.len() ==> user_wf(#[trigger] post[k]));
    assert(usernames_unique(post)) by {
        assert(forall|k: int|
            0 <= k < post.len() ==> (#[trigger] post[k]).username == users[k].username);
    }
    lemma_ips_unique_after_assign(users, u, i, ip);
}

/// Hands an address from the pool to every container/VM instance that has
/// none, as long as free addresses remain. Addresses are handed out in pool
/// order (the caller shuffles the pool); a pass that runs out of addresses
/// stops and leaves the rest for a later cycle, which the exhaustion clause
/// of the contract records.
pub fn allocate_ip(state: &mut State, ip_pool: &Vec<String>)
    requires
        state_wf(old(state)@),
    ensures
        state_wf(final(state)@),
        final(state)@.nodes == old(state)@.nodes,
        only_ips_assigned(
            old(state)@.users,
            final(state)@.users,
            ip_pool@.map_values(|s: String| s@),
        ),
        forall|u: int, i: int|
            {
                &&& 0 <= u < final(state)@.users.len()
                &&& 0 <= i < final(state)@.users[u].instances.len()
                &&& ((#[trigger] final(state)@.users[u].instances[i]).runtime == Runtime::Lxc
                    || final(state)@.users[u].instances[i].runtime == Runtime::Kvm)
                &&& final(state)@.users[u].instances[i].external_ip is None
            } ==> pool_exhausted(final(state)@.users, ip_pool@.map_values(|s: String| s@)),
{
    let ghost prev = old(state)@;
    let ghost poolv = ip_pool@.map_values(|s: String| s@);
    let ulen = state.users.len();
    let mut u: usize = 0;
    while u < ulen
        invariant
            0 <= u <= ulen,
            ulen == state.users@.len(),
            state@.users.len() == ulen,
            prev.users.len() == ulen,
            prev == old(state)@,
            poolv == ip_pool@.map_values(|s: String| s@),
            state@.nodes == prev.nodes,
            state_wf(state@),
            only_ips_assigned(prev.users, state@.users, poolv),
            forall|a: int, b: int|
                0 <= a < u && 0 <= b < state@.users[a].instances.len() && ((
                #[trigger] state@.users[a].instances[b]).runtime == Runtime::Lxc
                    || state@.users[a].instances[b].runtime == Runtime::Kvm)
                    ==> state@.users[a].instances[b].external_ip is Some,
        decreases ulen - u,
    {
        let ilen = state.users[u].instances.len();
        proof {
            assert(state@.users[u as int] == state.users@[u as int]@);
        }
        let mut i: usize = 0;
        while i < ilen
            invariant
                0 <= i <= ilen,
                0 <= u < ulen,
                ulen == state.users@.len(),
                state@.users.len() == ulen,
                prev.users.len() == ulen,
                ilen == state@.users[u as int].instances.len(),
                ilen == state.users@[u as int].instances@.len(),
                prev == old(state)@,
                poolv == ip_pool@.map_values(|s: String| s@),
                state@.nodes == prev.nodes,
                state_wf(state@),
                only_ips_assigned(prev.users, state@.users, poolv),
                forall|a: int, b: int|
                    0 <= a < u && 0 <= b < state@.users[a].instances.len() && ((
                    #[trigger] state@.users[a].instances[b]).runtime == Runtime::Lxc
                        || state@.users[a].instances[b].runtime == Runtime::Kvm)
                        ==> state@.users[a].instances[b].external_ip is Some,
                forall|b: int|
                    0 <= b < i && ((#[trigger] state@.users[u as int].instances[b]).runtime
                        == Runtime::Lxc || state@.users[u as int].instances[b].runtime
                        == Runtime::Kvm) ==> state@.users[u as int].instances[b].external_ip
                        is Some,
            decreases ilen - i,
        {
            proof {
                assert(state@.users[u as int] == state.users@[u as int]@);
                assert(state@.users[u as int].instances[i as int] == state.users@[
                    u as int].instances@[i as int]@);
            }
            let needs = matches!(
                state.users[u].instances[i].runtime,
                Runtime::Lxc | Runtime::Kvm
            ) && state.users[u].instances[i].external_ip.is_none();
            if needs {
                match pick_free_ip(&state.users, ip_pool) {
                    Some(ip) => {
                        let ghost before = state@;
                        let ghost ipv = ip@;
                        let instance = &mut state.users[u].instances[i];
                        instance.external_ip = Some(ip);
                        proof {
                            let newi = InstanceView {
                                external_ip: Some(ipv),
                                ..before.users[u as int].instances[i as int]
                            };
                            assert(state@.users[u as int].instances =~= before.users[
                                u as int].instances.update(i as int, newi));
                            assert(state@.users[u as int] == users_with_ip(
                                before.users,
                                u as int,
                                i as int,
                                ipv,
                            )[u as int]);
                            assert(state@.users =~= users_with_ip(
                                before.users,
                                u as int,
                                i as int,
                                ipv,
                            ));
                            assert(state@.nodes =~= before.nodes);
                            lemma_wf_after_ip_assign(before.users, u as int, i as int, ipv);
                            assert(state_wf(state@));
                            assert(poolv.contains(ipv)) by {
                                let j = choose|j: int|
                                    0 <= j < ip_pool@.len() && (#[trigger] ip_pool@[j])@ == ipv;
                                assert(poolv[j] == ipv);
                            }
                            assert(only_ips_assigned(prev.users, state@.users, poolv)) by {
                                assert(forall|a: int|
                                    0 <= a < ulen && a != u as int ==> #[trigger] state@.users[a]
                                        == before.users[a]);
                                assert(forall|b: int|
                                    0 <= b < ilen && b != i as int
                                        ==> #[trigger] state@.users[u as int].instances[b]
                                        == before.users[u as int].instances[b]);
                                assert(state@.users[u as int].instances[i as int]
                                    == (InstanceView {
                                    external_ip: Some(ipv),
                                    ..before.users[u as int].instances[i as int]
                                }));
                            }
                        }
                    },
                    None => {
                        proof {
                            assert(pool_exhausted(state@.users, poolv)) by {
                                assert forall|j: int| 0 <= j < poolv.len() implies ip_held(
                                    state@.users,
                                    #[trigger] poolv[j],
                                ) by {
                                    assert(poolv[j] == (ip_pool@[j])@);
                                }
                            }
                        }
                        return ;
                    },
                }
            }
            i += 1;
        }
        u += 1;
    }
}

// ---------------------------------------------------------------------------
// Placement.
// ---------------------------------------------------------------------------

/// An instance the placement pass must still handle: it is being created,
/// and (for container/VM runtimes) already has an address but no complete
/// placement, or (for pod runtimes) no node yet.
pub open spec fn needs_placement(i: InstanceView) -> bool {
    &&& i.status == StatusView::Creating
    &&& match i.runtime {
        Runtime::Lxc | Runtime::Kvm => i.external_ip is Some && (i.node_name is None
            || i.storage_pool is None),
        Runtime::Runc | Runtime::Kata => i.node_name is None,
    }
}

/// Whether a pool may serve an instance, honouring a pinned pool name.
pub open spec fn pool_matches_opt(p: StoragePoolView, pin: Option<Seq<char>>) -> bool {
    match pin {
        Some(name) => p.name == name,
        None => true,
    }
}

/// A node can take the instance: it honours a pinned node, offers the
/// runtime, and has room for cpu, memory and disk, with some acceptable
/// pool that fits the disk.
pub open spec fn sched_node_eligible(n: NodeView, i: InstanceView) -> bool {
    &&& match i.node_name {
        Some(nm) => n.name == nm,
        None => true,
    }
    &&& n.runtimes.contains(i.runtime)
    &&& i.cpu + n.cpu_allocated <= n.cpu_total
    &&& i.memory + n.memory_allocated <= n.memory_total
    &&& i.disk_size + n.storage_allocated <= n.storage_total
    &&& i.disk_size + n.storage_used <= n.storage_total
    &&& exists|p: int|
        0 <= p < n.storage_pools.len() && pool_matches_opt(#[trigger] n.storage_pools[p], i.storage_pool)
            && pool_fits(n.storage_pools[p], i.disk_size)
}

/// The best-fit ordering on nodes: free cpu, then free memory, then free
/// storage, compared lexicographically.
pub open spec fn node_key_gt(a: NodeView, b: NodeView) -> bool {
    let a0 = a.cpu_total - a.cpu_allocated;
    let b0 = b.cpu_total - b.cpu_allocated;
    let a1 = a.memory_total - a.memory_allocated;
    let b1 = b.memory_total - b.memory_allocated;
    let a2 = a.storage_total - max2(a.storage_allocated, a.storage_used);
    let b2 = b.storage_total - max2(b.storage_allocated, b.storage_used);
    ||| a0 > b0
    ||| (a0 == b0 && a1 > b1)
    ||| (a0 == b0 && a1 == b1 && a2 > b2)
}

/// The pool ordering: free space under the larger of allocated and used.
pub open spec fn pool_value_gt(a: StoragePoolView, b: StoragePoolView) -> bool {
    a.total - max2(a.allocated, a.used) > b.total - max2(b.allocated, b.used)
}

fn usize_max(a: usize, b: usize) -> (r: usize)
    ensures
        r as int == max2(a as int, b as int),
{
    if a >= b {
        a
    } else {
        b
    }
}

/// `at - aa > bt - ba`, computed without underflow.
fn diff_gt(at: usize, aa: usize, bt: usize, ba: usize) -> (r: bool)
    ensures
        r == (at as int - aa as int > bt as int - ba as int),
{
    (at as u128 + ba as u128) > (bt as u128 + aa as u128)
}

fn node_key_gt_exec(a: &Node, b: &Node) -> (r: bool)
    ensures
        r == node_key_gt(a@, b@),
{
    if diff_gt(a.cpu_total, a.cpu_allocated, b.cpu_total, b.cpu_allocated) {
        return true;
    }
    if diff_gt(b.cpu_total, b.cpu_allocated, a.cpu_total, a.cpu_allocated) {
        return false;
    }
    if diff_gt(a.memory_total, a.memory_allocated, b.memory_total, b.memory_allocated) {
        return true;
    }
    if diff_gt(b.memory_total, b.memory_allocated, a.memory_total, a.memory_allocated) {
        return false;
    }
    let ahigh = usize_max(a.storage_allocated, a.storage_used);
    let bhigh = usize_max(b.storage_allocated, b.storage_used);
    diff_gt(a.storage_total, ahigh, b.storage_total, bhigh)
}

fn pool_value_gt_exec(a: &StoragePool, b: &StoragePool) -> (r: bool)
    ensures
        r == pool_value_gt(a@, b@),
{
    let ahigh = usize_max(a.allocated, a.used);
    let bhigh = usize_max(b.allocated, b.used);
    diff_gt(a.total, ahigh, b.total, bhigh)
}

fn pool_matches_opt_exec(p: &StoragePool, pin: &Option<String>) -> (r: bool)
    ensures
        r == pool_matches_opt(p@, crate::model::opt_view(*pin)),
{
    match pin {
        Some(name) => string_eq_str(&p.name, name.as_str()),
        None => true,
    }
}

fn pool_fits_exec(p: &StoragePool, disk: usize) -> (r: bool)
    ensures
        r == pool_fits(p@, disk as int),
{
    let high = usize_max(p.allocated, p.used);
    high <= p.total && disk <= p.total - high
}

fn sched_node_eligible_exec(n: &Node, inst: &Instance) -> (r: bool)
    ensures
        r == sched_node_eligible(n@, inst@),
{
    match &inst.node_name {
        Some(nm) => {
            if !str_eq(n.name.as_str(), nm.as_str()) {
                return false;
            }
        },
        None => {},
    }
    let mut has_runtime = false;
    let rlen = n.runtimes.len();
    let mut k: usize = 0;
    while k < rlen
        invariant
            0 <= k <= rlen,
            rlen == n.runtimes@.len(),
            has_runtime ==> n@.runtimes.contains(inst@.runtime),
            !has_runtime ==> forall|j: int| 0 <= j < k ==> n@.runtimes[j] != inst@.runtime,
        decreases rlen - k,
    {
        if n.runtimes[k] == inst.runtime {
            has_runtime = true;
        }
        k += 1;
    }
    if !has_runtime {
        proof {
            assert(!n@.runtimes.contains(inst@.runtime));
        }
        return false;
    }
    if n.cpu_allocated > n.cpu_total || inst.cpu > n.cpu_total - n.cpu_allocated {
        return false;
    }
    if n.memory_allocated > n.memory_total || inst.memory > n.memory_total - n.memory_allocated {
        return false;
    }
    if n.storage_allocated > n.storage_total || inst.disk_size > n.storage_total
        - n.storage_allocated {
        return false;
    }
    if n.storage_used > n.storage_total || inst.disk_size > n.storage_total - n.storage_used {
        return false;
    }
    let plen = n.storage_pools.len();
    let mut p: usize = 0;
    while p < plen
        invariant
            0 <= p <= plen,
            plen == n.storage_pools@.len(),
            n@.storage_pools.len() == plen,
            match inst@.node_name {
                Some(nm) => n@.name == nm,
                None => true,
            },
            n@.runtimes.contains(inst@.runtime),
            inst@.cpu + n@.cpu_allocated <= n@.cpu_total,
            inst@.memory + n@.memory_allocated <= n@.memory_total,
            inst@.disk_size + n@.storage_allocated <= n@.storage_total,
            inst@.disk_size + n@.storage_used <= n@.storage_total,
            forall|q: int|
                0 <= q < p ==> !(pool_matches_opt(#[trigger] n@.storage_pools[q], inst@.storage_pool)
                    && pool_fits(n@.storage_pools[q], inst@.disk_size)),
        decreases plen - p,
    {
        assert(n@.storage_pools[p as int] == n.storage_pools@[p as int]@);
        if pool_matches_opt_exec(&n.storage_pools[p], &inst.storage_pool) && pool_fits_exec(
            &n.storage_pools[p],
            inst.disk_size,
        ) {
            return true;
        }
        p += 1;
    }
    false
}

/// Finds the first node attaining the best-fit maximum among the nodes that
/// can take the instance.
fn find_best_node(nodes: &Vec<Node>, inst: &Instance) -> (r: Option<usize>)
    ensures
        ({
            let nodesv = nodes@.map_values(|n: Node| n@);
            match r {
                Some(k) => {
                    &&& k < nodesv.len()
                    &&& sched_node_eligible(nodesv[k as int], inst@)
                    &&& forall|j: int|
                        0 <= j < nodesv.len() && sched_node_eligible(#[trigger] nodesv[j], inst@)
                            ==> !node_key_gt(nodesv[j], nodesv[k as int])
                    &&& forall|j: int|
                        0 <= j < k && sched_node_eligible(#[trigger] nodesv[j], inst@)
                            ==> node_key_gt(nodesv[k as int], nodesv[j])
                },
                None => forall|j: int|
                    0 <= j < nodesv.len() ==> !sched_node_eligible(#[trigger] nodesv[j], inst@),
            }
        }),
{
    let ghost nodesv = nodes@.map_values(|n: Node| n@);
    let nlen = nodes.len();
    let mut best: Option<usize> = None;
    let mut k: usize = 0;
    while k < nlen
        invariant
            0 <= k <= nlen,
            nlen == nodes@.len(),
            nodesv == nodes@.map_values(|n: Node| n@),
            nodesv.len() == nlen,
            match best {
                Some(b) => {
                    &&& b < k
                    &&& sched_node_eligible(nodesv[b as int], inst@)
                    &&& forall|j: int|
                        0 <= j < k && sched_node_eligible(#[trigger] nodesv[j], inst@)
                            ==> !node_key_gt(nodesv[j], nodesv[b as int])
                    &&& forall|j: int|
                        0 <= j < b && sched_node_eligible(#[trigger] nodesv[j], inst@)
                            ==> node_key_gt(nodesv[b as int], nodesv[j])
                },
                None => forall|j: int|
                    0 <= j < k ==> !sched_node_eligible(#[trigger] nodesv[j], inst@),
            },
        decreases nlen - k,
    {
        assert(nodesv[k as int] == nodes@[k as int]@);
        if sched_node_eligible_exec(&nodes[k], inst) {
            match best {
                Some(b) => {
                    assert(nodesv[b as int] == nodes@[b as int]@);
                    if node_key_gt_exec(&nodes[k], &nodes[b]) {
                        best = Some(k);
                    }
                },
                None => {
                    best = Some(k);
                },
            }
        }
        k += 1;
    }
    best
}

/// Finds the first pool attaining the most free space among the pools that
/// match the instance's pinned pool, if any.
fn find_best_pool(n: &Node, inst: &Instance) -> (r: Option<usize>)
    ensures
        ({
            let poolsv = n@.storage_pools;
            match r {
                Some(p) => {
                    &&& p < poolsv.len()
                    &&& pool_matches_opt(poolsv[p as int], inst@.storage_pool)
                    &&& forall|q: int|
                        0 <= q < poolsv.len() && pool_matches_opt(
                            #[trigger] poolsv[q],
                            inst@.storage_pool,
                        ) ==> !pool_value_gt(poolsv[q], poolsv[p as int])
                    &&& forall|q: int|
                        0 <= q < p && pool_matches_opt(#[trigger] poolsv[q], inst@.storage_pool)
                            ==> pool_value_gt(poolsv[p as int], poolsv[q])
                },
                None => forall|q: int|
                    0 <= q < poolsv.len() ==> !pool_matches_opt(
                        #[trigger] poolsv[q],
                        inst@.storage_pool,
                    ),
            }
        }),
{
    let ghost poolsv = n@.storage_pools;
    let plen = n.storage_pools.len();
    let mut best: Option<usize> = None;
    let mut p: usize = 0;
    while p < plen
        invariant
            0 <= p <= plen,
            plen == n.storage_pools@.len(),
            poolsv == n@.storage_pools,
            poolsv.len() == plen,
            match best {
                Some(b) => {
                    &&& b < p
                    &&& pool_matches_opt(poolsv[b as int], inst@.storage_pool)
                    &&& forall|q: int|
                        0 <= q < p && pool_matches_opt(#[trigger] poolsv[q], inst@.storage_pool)
                            ==> !pool_value_gt(poolsv[q], poolsv[b as int])
                    &&& forall|q: int|
                        0 <= q < b && pool_matches_opt(#[trigger] poolsv[q], inst@.storage_pool)
                            ==> pool_value_gt(poolsv[b as int], poolsv[q])
                },
                None => forall|q: int|
                    0 <= q < p ==> !pool_matches_opt(#[trigger] poolsv[q], inst@.storage_pool),
            },
        decreases plen - p,
    {
        assert(poolsv[p as int] == n.storage_pools@[p as int]@);
        if pool_matches_opt_exec(&n.storage_pools[p], &inst.storage_pool) {
            match best {
                Some(b) => {
                    assert(poolsv[b as int] == n.storage_pools@[b as int]@);
                    if pool_value_gt_exec(&n.storage_pools[p], &n.storage_pools[b]) {
                        best = Some(p);
                    }
                },
                None => {
                    best = Some(p);
                },
            }
        }
        p += 1;
    }
    best
}

/// Two nodes that differ at most in their allocation counters.
pub open spec fn node_shape_eq(a: NodeView, b: NodeView) -> bool {
    &&& b.name == a.name
    &&& b.runtimes == a.runtimes
    &&& b.cpu_total == a.cpu_total
    &&& b.memory_total == a.memory_total
    &&& b.storage_total == a.storage_total
    &&& b.storage_used == a.storage_used
    &&& b.storage_pools.len() == a.storage_pools.len()
    &&& forall|p: int|
        0 <= p < a.storage_pools.len() ==> {
            &&& (#[trigger] b.storage_pools[p]).name == a.storage_pools[p].name
            &&& b.storage_pools[p].total == a.storage_pools[p].total
            &&& b.storage_pools[p].used == a.storage_pools[p].used
        }
}

/// Instances that differ from `pre` only by placements: a node (and, where
/// the instance carries one, a pool) assigned where the instance awaited
/// one, pinned placements honoured, and every assigned name naming a real
/// node (and pool on it).
pub open spec fn only_placements_assigned(
    pre: Seq<UserView>,
    post: Seq<UserView>,
    nodes: Seq<NodeView>,
) -> bool {
    &&& post.len() == pre.len()
    &&& forall|u: int|
        0 <= u < pre.len() ==> {
            let pu = #[trigger] pre[u];
            let qu = #[trigger] post[u];
            &&& qu.username == pu.username
            &&& qu.cpu_quota == pu.cpu_quota
            &&& qu.memory_quota == pu.memory_quota
            &&& qu.disk_quota == pu.disk_quota
            &&& qu.instance_quota == pu.instance_quota
            &&& qu.instances.len() == pu.instances.len()
            &&& forall|i: int|
                0 <= i < pu.instances.len() ==> {
                    let pi = #[trigger] pu.instances[i];
                    let qi = #[trigger] qu.instances[i];
                    ||| qi == pi
                    ||| {
                        &&& needs_placement(pi)
                        &&& qi == (InstanceView {
                            node_name: qi.node_name,
                            storage_pool: qi.storage_pool,
                            ..pi
                        })
                        &&& qi.node_name is Some
                        &&& (pi.node_name is Some ==> qi.node_name == pi.node_name)
                        &&& (pi.storage_pool is Some ==> qi.storage_pool == pi.storage_pool)
                        &&& exists|k: int|
                            0 <= k < nodes.len() && (#[trigger] nodes[k]).name
                                == qi.node_name->Some_0 && (qi.storage_pool is Some
                                ==> exists|p: int|
                                0 <= p < nodes[k].storage_pools.len() && (
                                #[trigger] nodes[k].storage_pools[p]).name
                                    == qi.storage_pool->Some_0)
                    }
                }
        }
}

/// One placement step keeps the counters dominating the claims: the claims
/// grow by at most the placed instance's resources on the chosen node and
/// pool, and the counters grow by exactly them.
proof fn lemma_dominated_after_place(
    pre: StateView,
    u: int,
    i: int,
    bk: int,
    bp: int,
    newi: InstanceView,
    post: StateView,
)
    requires
        nodes_wf(pre.nodes),
        users_resources_nonneg(pre.users),
        allocations_dominated(pre),
        0 <= u < pre.users.len(),
        0 <= i < pre.users[u].instances.len(),
        0 <= bk < pre.nodes.len(),
        0 <= bp < pre.nodes[bk].storage_pools.len(),
        newi.cpu == pre.users[u].instances[i].cpu,
        newi.memory == pre.users[u].instances[i].memory,
        newi.disk_size == pre.users[u].instances[i].disk_size,
        newi.node_name == Some(pre.nodes[bk].name),
        newi.storage_pool is None || newi.storage_pool == Some(
            pre.nodes[bk].storage_pools[bp].name,
        ),
        post.users == pre.users.update(
            u,
            UserView { instances: pre.users[u].instances.update(i, newi), ..pre.users[u] },
        ),
        post.nodes.len() == pre.nodes.len(),
        forall|k: int| 0 <= k < pre.nodes.len() && k != bk ==> #[trigger] post.nodes[k]
            == pre.nodes[k],
        post.nodes[bk].name == pre.nodes[bk].name,
        post.nodes[bk].cpu_allocated == pre.nodes[bk].cpu_allocated + newi.cpu,
        post.nodes[bk].memory_allocated == pre.nodes[bk].memory_allocated + newi.memory,
        post.nodes[bk].storage_allocated == pre.nodes[bk].storage_allocated + newi.disk_size,
        post.nodes[bk].storage_pools.len() == pre.nodes[bk].storage_pools.len(),
        forall|p: int|
            0 <= p < pre.nodes[bk].storage_pools.len() && p != bp
                ==> #[trigger] post.nodes[bk].storage_pools[p] == pre.nodes[bk].storage_pools[p],
        post.nodes[bk].storage_pools[bp].name == pre.nodes[bk].storage_pools[bp].name,
        post.nodes[bk].storage_pools[bp].allocated == pre.nodes[bk].storage_pools[bp].allocated
            + newi.disk_size,
    ensures
        allocations_dominated(post),
{
    let oldi = pre.users[u].instances[i];
    let newu = UserView { instances: pre.users[u].instances.update(i, newi), ..pre.users[u] };
    let nm = pre.nodes[bk].name;
    let pn = pre.nodes[bk].storage_pools[bp].name;
    assert forall|k: int| 0 <= k < post.nodes.len() implies {
        let n = #[trigger] post.nodes[k];
        &&& n.cpu_allocated >= state_cpu_on(post.users, n.name)
        &&& n.memory_allocated >= state_memory_on(post.users, n.name)
        &&& n.storage_allocated >= state_disk_on(post.users, n.name)
        &&& forall|p: int|
            0 <= p < n.storage_pools.len() ==> (#[trigger] n.storage_pools[p]).allocated
                >= state_disk_on_pool(post.users, n.name, n.storage_pools[p].name)
    } by {
        let n = post.nodes[k];
        let pren = pre.nodes[k];
        assert(n.name == pren.name);
        lemma_claims_update_user(pre.users, u, newu, pren.name, pn);
        lemma_claims_update_inst(pre.users[u].instances, i, newi, pren.name, pn);
        assert(oldi.cpu >= 0 && oldi.memory >= 0 && oldi.disk_size >= 0);
        if k == bk {
            assert(n.cpu_allocated >= state_cpu_on(post.users, n.name));
            assert(n.memory_allocated >= state_memory_on(post.users, n.name));
            assert(n.storage_allocated >= state_disk_on(post.users, n.name));
        } else {
            assert(pren.name != nm);
            assert(newi.node_name != Some(pren.name));
            assert(n.cpu_allocated >= state_cpu_on(post.users, n.name));
            assert(n.memory_allocated >= state_memory_on(post.users, n.name));
            assert(n.storage_allocated >= state_disk_on(post.users, n.name));
        }
        assert forall|p: int|
            0 <= p < n.storage_pools.len() implies (#[trigger] n.storage_pools[p]).allocated
            >= state_disk_on_pool(post.users, n.name, n.storage_pools[p].name) by {
            let pname = n.storage_pools[p].name;
            lemma_claims_update_user(pre.users, u, newu, pren.name, pname);
            lemma_claims_update_inst(pre.users[u].instances, i, newi, pren.name, pname);
            if k == bk && p == bp {
                assert(n.storage_pools[p].allocated >= state_disk_on_pool(
                    post.users,
                    n.name,
                    pname,
                ));
            } else {
                // This is not the chosen pool, so the new record does not
                // claim it: either another node's name or, on the chosen
                // node, a different pool name.
                if k == bk {
                    assert(pname == pre.nodes[bk].storage_pools[p].name);
                    assert(pname != pn);
                    assert(!(newi.node_name == Some(pren.name) && newi.storage_pool == Some(
                        pname,
                    )));
                } else {
                    assert(pren.name != nm);
                    assert(newi.node_name != Some(pren.name));
                }
                assert(n.storage_pools[p].allocated >= state_disk_on_pool(
                    post.users,
                    n.name,
                    pname,
                ));
            }
        }
    }
}

/// No known node can take this instance.
pub open spec fn unplaceable(s: StateView, u: int, i: int) -> bool {
    forall|k: int|
        0 <= k < s.nodes.len() ==> !sched_node_eligible(
            #[trigger] s.nodes[k],
            s.users[u].instances[i],
        )
}

/// After a placement pass, everything still awaiting placement fits
/// nowhere: the pass placed all it could.
pub open spec fn placement_progress(s: StateView) -> bool {
    forall|a: int, b: int|
        0 <= a < s.users.len() && 0 <= b < s.users[a].instances.len() && needs_placement(
            #[trigger] s.users[a].instances[b],
        ) ==> unplaceable(s, a, b)
}

/// Eligibility only shrinks as allocation counters grow: a node that could
/// not take an instance still cannot once more is allocated on it.
proof fn lemma_eligibility_antitone(n1: NodeView, n2: NodeView, i: InstanceView)
    requires
        n2.name == n1.name,
        n2.runtimes == n1.runtimes,
        n2.cpu_total == n1.cpu_total,
        n2.memory_total == n1.memory_total,
        n2.storage_total == n1.storage_total,
        n2.storage_used == n1.storage_used,
        n2.cpu_allocated >= n1.cpu_allocated,
        n2.memory_allocated >= n1.memory_allocated,
        n2.storage_allocated >= n1.storage_allocated,
        n2.storage_pools.len() == n1.storage_pools.len(),
        forall|p: int|
            0 <= p < n1.storage_pools.len() ==> {
                &&& (#[trigger] n2.storage_pools[p]).name == n1.storage_pools[p].name
                &&& n2.storage_pools[p].total == n1.storage_pools[p].total
                &&& n2.storage_pools[p].used == n1.storage_pools[p].used
                &&& n2.storage_pools[p].allocated >= n1.storage_pools[p].allocated
            },
        !sched_node_eligible(n1, i),
    ensures
        !sched_node_eligible(n2, i),
{
    if sched_node_eligible(n2, i) {
        let p = choose|p: int|
            0 <= p < n2.storage_pools.len() && pool_matches_opt(
                #[trigger] n2.storage_pools[p],
                i.storage_pool,
            ) && pool_fits(n2.storage_pools[p], i.disk_size);
        assert(pool_matches_opt(n1.storage_pools[p], i.storage_pool));
        assert(pool_fits(n1.storage_pools[p], i.disk_size));
        assert(sched_node_eligible(n1, i));
    }
}

/// An instance that nothing could take is still unplaceable after one
/// placement step grew the chosen node's counters, as long as the instance
/// itself did not change.
proof fn lemma_unplaceable_after_step(pre: StateView, post: StateView, a: int, b: int, bk: int)
    requires
        0 <= a < pre.users.len(),
        0 <= b < pre.users[a].instances.len(),
        a < post.users.len(),
        b < post.users[a].instances.len(),
        post.users[a].instances[b] == pre.users[a].instances[b],
        post.nodes.len() == pre.nodes.len(),
        0 <= bk < pre.nodes.len(),
        forall|k: int| 0 <= k < pre.nodes.len() && k != bk ==> #[trigger] post.nodes[k]
            == pre.nodes[k],
        post.nodes[bk].name == pre.nodes[bk].name,
        post.nodes[bk].runtimes == pre.nodes[bk].runtimes,
        post.nodes[bk].cpu_total == pre.nodes[bk].cpu_total,
        post.nodes[bk].memory_total == pre.nodes[bk].memory_total,
        post.nodes[bk].storage_total == pre.nodes[bk].storage_total,
        post.nodes[bk].storage_used == pre.nodes[bk].storage_used,
        post.nodes[bk].cpu_allocated >= pre.nodes[bk].cpu_allocated,
        post.nodes[bk].memory_allocated >= pre.nodes[bk].memory_allocated,
        post.nodes[bk].storage_allocated >= pre.nodes[bk].storage_allocated,
        post.nodes[bk].storage_pools.len() == pre.nodes[bk].storage_pools.len(),
        forall|p: int|
            0 <= p < pre.nodes[bk].storage_pools.len() ==> {
                &&& (#[trigger] post.nodes[bk].storage_pools[p]).name == pre.nodes[
                    bk].storage_pools[p].name
                &&& post.nodes[bk].storage_pools[p].total == pre.nodes[bk].storage_pools[p].total
                &&& post.nodes[bk].storage_pools[p].used == pre.nodes[bk].storage_pools[p].used
                &&& post.nodes[bk].storage_pools[p].allocated >= pre.nodes[bk].storage_pools[
                    p].allocated
            },
        unplaceable(pre, a, b),
    ensures
        unplaceable(post, a, b),
{
    assert forall|k: int| 0 <= k < post.nodes.len() implies !sched_node_eligible(
        #[trigger] post.nodes[k],
        post.users[a].instances[b],
    ) by {
        assert(!sched_node_eligible(pre.nodes[k], pre.users[a].instances[b]));
        if k == bk {
            lemma_eligibility_antitone(
                pre.nodes[k],
                post.nodes[k],
                pre.users[a].instances[b],
            );
        } else {
            assert(post.nodes[k] == pre.nodes[k]);
        }
    }
}

fn needs_placement_exec(inst: &Instance) -> (r: bool)
    ensures
        r == needs_placement(inst@),
{
    if !matches!(inst.status, InstanceStatus::Creating) {
        return false;
    }
    match inst.runtime {
        Runtime::Lxc | Runtime::Kvm => inst.external_ip.is_some() && (inst.node_name.is_none()
            || inst.storage_pool.is_none()),
        Runtime::Runc | Runtime::Kata => inst.node_name.is_none(),
    }
}

/// Assigns a node (and, for container/VM instances, a pool) to every
/// instance awaiting placement that some node can take, choosing the first
/// best-fit node and its first roomiest acceptable pool, and accounting for
/// each assignment in the allocation counters so that one pass never
/// oversubscribes a node. The pass places everything placeable: whatever
/// still awaits placement afterwards fits on no node, and is left for a
/// later cycle.
#[verifier::rlimit(100)]
pub fn schedule(state: &mut State)
    requires
        state_wf(old(state)@),
        nodes_wf(old(state)@.nodes),
        allocations_dominated(old(state)@),
    ensures
        state_wf(final(state)@),
        nodes_wf(final(state)@.nodes),
        allocations_dominated(final(state)@),
        final(state)@.nodes.len() == old(state)@.nodes.len(),
        forall|k: int|
            0 <= k < old(state)@.nodes.len() ==> node_shape_eq(
                old(state)@.nodes[k],
                #[trigger] final(state)@.nodes[k],
            ),
        only_placements_assigned(old(state)@.users, final(state)@.users, old(state)@.nodes),
        placement_counters_feasible(old(state)@) ==> placement_counters_feasible(final(state)@),
        placement_progress(final(state)@),
{
    let ghost prev = old(state)@;
    let ulen = state.users.len();
    let mut u: usize = 0;
    while u < ulen
        invariant
            0 <= u <= ulen,
            ulen == state.users@.len(),
            prev == old(state)@,
            state@.users.len() == ulen,
            prev.users.len() == ulen,
            state@.nodes.len() == prev.nodes.len(),
            state_wf(state@),
            nodes_wf(state@.nodes),
            allocations_dominated(state@),
            forall|k: int|
                0 <= k < prev.nodes.len() ==> node_shape_eq(
                    prev.nodes[k],
                    #[trigger] state@.nodes[k],
                ),
            only_placements_assigned(prev.users, state@.users, prev.nodes),
            placement_counters_feasible(prev) ==> placement_counters_feasible(state@),
            forall|a: int, b: int|
                u <= a < ulen && 0 <= b < prev.users[a].instances.len()
                    ==> #[trigger] state@.users[a].instances[b] == prev.users[a].instances[b],
            forall|a: int, b: int|
                0 <= a < u && 0 <= b < state@.users[a].instances.len() && needs_placement(
                    #[trigger] state@.users[a].instances[b],
                ) ==> unplaceable(state@, a, b),
        decreases ulen - u,
    {
        let ilen = state.users[u].instances.len();
        proof {
            assert(state@.users[u as int] == state.users@[u as int]@);
        }
        let mut i: usize = 0;
        while i < ilen
            invariant
                0 <= i <= ilen,
                0 <= u < ulen,
                ulen == state.users@.len(),
                prev == old(state)@,
                state@.users.len() == ulen,
                prev.users.len() == ulen,
                ilen == state@.users[u as int].instances.len(),
                ilen == state.users@[u as int].instances@.len(),
                ilen == prev.users[u as int].instances.len(),
                state@.nodes.len() == prev.nodes.len(),
                state_wf(state@),
                nodes_wf(state@.nodes),
                allocations_dominated(state@),
                forall|k: int|
                    0 <= k < prev.nodes.len() ==> node_shape_eq(
                        prev.nodes[k],
                        #[trigger] state@.nodes[k],
                    ),
                only_placements_assigned(prev.users, state@.users, prev.nodes),
                placement_counters_feasible(prev) ==> placement_counters_feasible(state@),
                forall|a: int, b: int|
                    u < a < ulen && 0 <= b < prev.users[a].instances.len()
                        ==> #[trigger] state@.users[a].instances[b] == prev.users[a].instances[b],
                forall|b: int|
                    i <= b < ilen ==> #[trigger] state@.users[u as int].instances[b]
                        == prev.users[u as int].instances[b],
                forall|a: int, b: int|
                    0 <= a < u && 0 <= b < state@.users[a].instances.len() && needs_placement(
                        #[trigger] state@.users[a].instances[b],
                    ) ==> unplaceable(state@, a, b),
                forall|b: int|
                    0 <= b < i && needs_placement(
                        #[trigger] state@.users[u as int].instances[b],
                    ) ==> unplaceable(state@, u as int, b),
            decreases ilen - i,
        {
            proof {
                assert(state@.users[u as int] == state.users@[u as int]@);
                assert(state@.users[u as int].instances[i as int] == state.users@[
                    u as int].instances@[i as int]@);
            }
            if needs_placement_exec(&state.users[u].instances[i]) {
                let best = find_best_node(&state.nodes, &state.users[u].instances[i]);
                match best {
                    None => {
                        proof {
                            assert forall|k: int| 0 <= k < state@.nodes.len()
                                implies !sched_node_eligible(
                                #[trigger] state@.nodes[k],
                                state@.users[u as int].instances[i as int],
                            ) by {
                                assert(state@.nodes[k] == state.nodes@[k]@);
                            }
                            assert(unplaceable(state@, u as int, i as int));
                        }
                    },
                    Some(bk) => {
                        let ghost mid0 = state@;
                        let ghost instv = mid0.users[u as int].instances[i as int];
                        proof {
                            assert(mid0.nodes[bk as int] == state.nodes@[bk as int]@);
                            assert(sched_node_eligible(mid0.nodes[bk as int], instv));
                            crate::model::lemma_state_resources_nonneg(state);
                        }
                        let bpo = find_best_pool(&state.nodes[bk], &state.users[u].instances[i]);
                        let bp = match bpo {
                            Some(bp) => bp,
                            None => {
                                proof {
                                    let q = choose|q: int|
                                        0 <= q < mid0.nodes[bk as int].storage_pools.len()
                                            && pool_matches_opt(
                                            #[trigger] mid0.nodes[bk as int].storage_pools[q],
                                            instv.storage_pool,
                                        ) && pool_fits(
                                            mid0.nodes[bk as int].storage_pools[q],
                                            instv.disk_size,
                                        );
                                    assert(false);
                                }
                                vstd::pervasive::unreached()
                            },
                        };
                        proof {
                            // The chosen pool fits: it has at least as much
                            // free space as the fitting pool eligibility
                            // guarantees.
                            let q = choose|q: int|
                                0 <= q < mid0.nodes[bk as int].storage_pools.len()
                                    && pool_matches_opt(
                                    #[trigger] mid0.nodes[bk as int].storage_pools[q],
                                    instv.storage_pool,
                                ) && pool_fits(mid0.nodes[bk as int].storage_pools[q], instv.disk_size);
                            assert(!pool_value_gt(
                                mid0.nodes[bk as int].storage_pools[q],
                                mid0.nodes[bk as int].storage_pools[bp as int],
                            ));
                            assert(pool_fits(
                                mid0.nodes[bk as int].storage_pools[bp as int],
                                instv.disk_size,
                            ));
                        }
                        let cpu = state.users[u].instances[i].cpu;
                        let memory = state.users[u].instances[i].memory;
                        let disk = state.users[u].instances[i].disk_size;
                        let is_cv = matches!(
                            state.users[u].instances[i].runtime,
                            Runtime::Lxc | Runtime::Kvm
                        );
                        {
                            let pl = &mut state.nodes[bk].storage_pools[bp];
                            pl.allocated = pl.allocated + disk;
                        }
                        {
                            let nd = &mut state.nodes[bk];
                            nd.cpu_allocated = nd.cpu_allocated + cpu;
                            nd.memory_allocated = nd.memory_allocated + memory;
                            nd.storage_allocated = nd.storage_allocated + disk;
                        }
                        let node_name_s = state.nodes[bk].name.clone();
                        let pool_name_s = state.nodes[bk].storage_pools[bp].name.clone();
                        proof {
                            assert(state@.nodes[bk as int] == state.nodes@[bk as int]@);
                            assert(node_name_s@ == mid0.nodes[bk as int].name);
                            assert(pool_name_s@ == mid0.nodes[bk as int].storage_pools[
                                bp as int].name);
                        }
                        {
                            let it = &mut state.users[u].instances[i];
                            it.node_name = Some(node_name_s);
                            if is_cv {
                                it.storage_pool = Some(pool_name_s);
                            }
                        }
                        proof {
                            let nm = mid0.nodes[bk as int].name;
                            let pn = mid0.nodes[bk as int].storage_pools[bp as int].name;
                            let newi = InstanceView {
                                node_name: Some(nm),
                                storage_pool: if is_cv {
                                    Some(pn)
                                } else {
                                    instv.storage_pool
                                },
                                ..instv
                            };
                            let newu = UserView {
                                instances: mid0.users[u as int].instances.update(i as int, newi),
                                ..mid0.users[u as int]
                            };
                            assert(state@.users[u as int].instances[i as int] == newi);
                            assert(state@.users[u as int].instances =~= mid0.users[
                                u as int].instances.update(i as int, newi));
                            assert(state@.users[u as int] == newu);
                            assert(state@.users =~= mid0.users.update(u as int, newu));

                            // The chosen pool still fits after nothing else
                            // changed under it, so no counter overflowed.
                            assert(state@.nodes[bk as int].storage_pools[bp as int].allocated
                                == mid0.nodes[bk as int].storage_pools[bp as int].allocated
                                + instv.disk_size);

                            // State invariants.
                            assert(state@.users == state_with_instance(
                                StateView { users: mid0.users, nodes: mid0.nodes },
                                u as int,
                                i as int,
                                newi,
                            ).users);
                            crate::admission::lemma_wf_after_instance_update(
                                mid0,
                                u as int,
                                i as int,
                                newi,
                            );
                            assert(state_wf(state@));

                            // Shapes and uniqueness of names.
                            assert(forall|k: int|
                                0 <= k < prev.nodes.len() && k != bk as int
                                    ==> #[trigger] state@.nodes[k] == mid0.nodes[k]);
                            assert(node_shape_eq(prev.nodes[bk as int], state@.nodes[bk as int]))
                                by {
                                assert(forall|p: int|
                                    0 <= p < mid0.nodes[bk as int].storage_pools.len() && p
                                        != bp as int ==> #[trigger] state@.nodes[
                                        bk as int].storage_pools[p] == mid0.nodes[
                                        bk as int].storage_pools[p]);
                            }
                            assert(nodes_wf(state@.nodes)) by {
                                assert(forall|k: int|
                                    0 <= k < state@.nodes.len() ==> (#[trigger] state@.nodes[k]).name
                                        == mid0.nodes[k].name);
                                assert(forall|k: int, p: int|
                                    0 <= k < state@.nodes.len() && 0 <= p < state@.nodes[k].storage_pools.len()
                                        ==> (#[trigger] state@.nodes[k].storage_pools[p]).name
                                        == mid0.nodes[k].storage_pools[p].name);
                            }

                            // Domination.
                            lemma_dominated_after_place(
                                mid0,
                                u as int,
                                i as int,
                                bk as int,
                                bp as int,
                                newi,
                                state@,
                            );

                            // Feasibility, under the hypothesis that it held
                            // before the pass.
                            if placement_counters_feasible(prev) {
                                assert(node_counters_feasible(state@.nodes[bk as int])) by {
                                    assert(forall|p: int|
                                        0 <= p < mid0.nodes[bk as int].storage_pools.len() && p
                                            != bp as int ==> #[trigger] state@.nodes[
                                            bk as int].storage_pools[p] == mid0.nodes[
                                            bk as int].storage_pools[p]);
                                }
                                assert(placement_counters_feasible(state@));
                            }

                            // The pass assigns placements and nothing else.
                            assert(only_placements_assigned(prev.users, state@.users, prev.nodes))
                                by {
                                assert(needs_placement(prev.users[u as int].instances[i as int]));
                                assert(instv == prev.users[u as int].instances[i as int]);
                                assert(prev.nodes[bk as int].name == nm);
                                assert(prev.nodes[bk as int].storage_pools[bp as int].name == pn);
                                assert(forall|a: int|
                                    0 <= a < ulen && a != u as int ==> #[trigger] state@.users[a]
                                        == mid0.users[a]);
                                assert(forall|b: int|
                                    0 <= b < ilen && b != i as int ==> #[trigger] state@.users[
                                        u as int].instances[b] == mid0.users[u as int].instances[b]);
                            }

                            // The placed instance awaits nothing further.
                            assert(!needs_placement(state@.users[u as int].instances[i as int]));

                            // Whatever was unplaceable before this step still
                            // is: only the chosen node's counters grew.
                            assert forall|a: int, b: int|
                                0 <= a < ulen && 0 <= b < state@.users[a].instances.len() && (a < u
                                    as int || (a == u as int && b < i as int)) && needs_placement(
                                #[trigger] state@.users[a].instances[b],
                            ) implies unplaceable(state@, a, b) by {
                                assert(state@.users[a].instances[b]
                                    == mid0.users[a].instances[b]);
                                assert(unplaceable(mid0, a, b));
                                lemma_unplaceable_after_step(
                                    mid0,
                                    state@,
                                    a,
                                    b,
                                    bk as int,
                                );
                            }
                        }
                    },
                }
            }
            i += 1;
        }
        u += 1;
    }
}

// ---------------------------------------------------------------------------
// One whole scheduler cycle.
// ---------------------------------------------------------------------------

/// Two user lists whose instances agree on everything the allocation
/// accounting reads: resources and placements.
pub open spec fn same_claims(users1: Seq<UserView>, users2: Seq<UserView>) -> bool {
    &&& users1.len() == users2.len()
    &&& forall|u: int|
        0 <= u < users1.len() ==> (#[trigger] users1[u]).instances.len() == (
        #[trigger] users2[u]).instances.len()
    &&& forall|u: int, i: int|
        0 <= u < users1.len() && 0 <= i < users1[u].instances.len() ==> {
            let a = #[trigger] users1[u].instances[i];
            let b = #[trigger] users2[u].instances[i];
            &&& a.cpu == b.cpu
            &&& a.memory == b.memory
            &&& a.disk_size == b.disk_size
            &&& a.node_name == b.node_name
            &&& a.storage_pool == b.storage_pool
        }
}

proof fn lemma_claims_same_insts(
    s1: Seq<InstanceView>,
    s2: Seq<InstanceView>,
    node: Seq<char>,
    pool: Seq<char>,
)
    requires
        s1.len() == s2.len(),
        forall|i: int|
            0 <= i < s1.len() ==> {
                let a = #[trigger] s1[i];
                let b = #[trigger] s2[i];
                &&& a.cpu == b.cpu
                &&& a.memory == b.memory
                &&& a.disk_size == b.disk_size
                &&& a.node_name == b.node_name
                &&& a.storage_pool == b.storage_pool
            },
    ensures
        cpu_on_node(s1, node) == cpu_on_node(s2, node),
        memory_on_node(s1, node) == memory_on_node(s2, node),
        disk_on_node(s1, node) == disk_on_node(s2, node),
        disk_on_pool(s1, node, pool) == disk_on_pool(s2, node, pool),
    decreases s1.len(),
{
    if s1.len() > 0 {
        assert(forall|i: int|
            0 <= i < s1.drop_first().len() ==> (#[trigger] s1.drop_first()[i]) == s1[i + 1] && (
            #[trigger] s2.drop_first()[i]) == s2[i + 1]);
        lemma_claims_same_insts(s1.drop_first(), s2.drop_first(), node, pool);
    }
}

/// The allocation accounting only reads resources and placements, so lists
/// that agree on those have the same claims.
pub proof fn lemma_claims_same(
    users1: Seq<UserView>,
    users2: Seq<UserView>,
    node: Seq<char>,
    pool: Seq<char>,
)
    requires
        same_claims(users1, users2),
    ensures
        state_cpu_on(users1, node) == state_cpu_on(users2, node),
        state_memory_on(users1, node) == state_memory_on(users2, node),
        state_disk_on(users1, node) == state_disk_on(users2, node),
        state_disk_on_pool(users1, node, pool) == state_disk_on_pool(users2, node, pool),
    decreases users1.len(),
{
    if users1.len() > 0 {
        lemma_claims_same_insts(users1[0].instances, users2[0].instances, node, pool);
        assert(forall|u: int|
            0 <= u < users1.drop_first().len() ==> (#[trigger] users1.drop_first()[u]) == users1[u
                + 1] && (#[trigger] users2.drop_first()[u]) == users2[u + 1]);
        assert(same_claims(users1.drop_first(), users2.drop_first()));
        lemma_claims_same(users1.drop_first(), users2.drop_first(), node, pool);
        assert(users1.first() == users1[0] && users2.first() == users2[0]);
    }
}

/// Decides whether the node inventory is well formed: unique node names,
/// unique pool names within each node.
pub fn nodes_well_formed(state: &State) -> (r: bool)
    ensures
        r == nodes_wf(state@.nodes),
{
    let ghost nodesv = state@.nodes;
    let n = state.nodes.len();
    let mut k: usize = 0;
    while k < n
        invariant
            0 <= k <= n,
            n == state.nodes@.len(),
            nodesv == state@.nodes,
            nodesv.len() == n,
            forall|a: int, b: int|
                0 <= a < b < k ==> (#[trigger] nodesv[a]).name != (#[trigger] nodesv[b]).name,
            forall|x: int, a: int, b: int|
                0 <= x < k && 0 <= a < b < nodesv[x].storage_pools.len() ==> (
                #[trigger] nodesv[x].storage_pools[a]).name != (
                #[trigger] nodesv[x].storage_pools[b]).name,
        decreases n - k,
    {
        proof {
            assert(nodesv[k as int] == state.nodes@[k as int]@);
        }
        let mut j: usize = 0;
        while j < k
            invariant
                0 <= j <= k < n,
                n == state.nodes@.len(),
                nodesv == state@.nodes,
                nodesv.len() == n,
                forall|a: int| 0 <= a < j ==> (#[trigger] nodesv[a]).name != nodesv[k as int].name,
            decreases k - j,
        {
            proof {
                assert(nodesv[j as int] == state.nodes@[j as int]@);
                assert(nodesv[k as int] == state.nodes@[k as int]@);
            }
            if str_eq(state.nodes[j].name.as_str(), state.nodes[k].name.as_str()) {
                return false;
            }
            j += 1;
        }
        let m = state.nodes[k].storage_pools.len();
        let mut a: usize = 0;
        while a < m
            invariant
                0 <= a <= m,
                0 <= k < n,
                n == state.nodes@.len(),
                nodesv == state@.nodes,
                nodesv.len() == n,
                m == nodesv[k as int].storage_pools.len(),
                m == state.nodes@[k as int].storage_pools@.len(),
                forall|x: int, y: int|
                    0 <= x < y < a ==> (#[trigger] nodesv[k as int].storage_pools[x]).name != (
                    #[trigger] nodesv[k as int].storage_pools[y]).name,
            decreases m - a,
        {
            proof {
                assert(nodesv[k as int].storage_pools[a as int] == state.nodes@[
                    k as int].storage_pools@[a as int]@);
            }
            let mut b: usize = 0;
            while b < a
                invariant
                    0 <= b <= a < m,
                    0 <= k < n,
                    n == state.nodes@.len(),
                    nodesv == state@.nodes,
                    nodesv.len() == n,
                    m == nodesv[k as int].storage_pools.len(),
                    m == state.nodes@[k as int].storage_pools@.len(),
                    forall|x: int|
                        0 <= x < b ==> (#[trigger] nodesv[k as int].storage_pools[x]).name
                            != nodesv[k as int].storage_pools[a as int].name,
                decreases a - b,
            {
                proof {
                    assert(nodesv[k as int].storage_pools[b as int] == state.nodes@[
                        k as int].storage_pools@[b as int]@);
                    assert(nodesv[k as int].storage_pools[a as int] == state.nodes@[
                        k as int].storage_pools@[a as int]@);
                }
                if str_eq(
                    state.nodes[k].storage_pools[b].name.as_str(),
                    state.nodes[k].storage_pools[a].name.as_str(),
                ) {
                    return false;
                }
                b += 1;
            }
            a += 1;
        }
        proof {
            assert(forall|x: int, a2: int, b2: int|
                0 <= x < k + 1 && 0 <= a2 < b2 < nodesv[x].storage_pools.len() ==> (
                #[trigger] nodesv[x].storage_pools[a2]).name != (
                #[trigger] nodesv[x].storage_pools[b2]).name);
        }
        k += 1;
    }
    true
}

/// Whether an address is held depends only on the instances' addresses.
proof fn lemma_ip_held_same(users1: Seq<UserView>, users2: Seq<UserView>, ip: Seq<char>)
    requires
        users1.len() == users2.len(),
        forall|a: int|
            0 <= a < users1.len() ==> (#[trigger] users1[a]).instances.len() == (
            #[trigger] users2[a]).instances.len(),
        forall|a: int, b: int|
            0 <= a < users1.len() && 0 <= b < users1[a].instances.len() ==> (
            #[trigger] users1[a].instances[b]).external_ip == (
            #[trigger] users2[a].instances[b]).external_ip,
    ensures
        ip_held(users1, ip) == ip_held(users2, ip),
{
    if ip_held(users1, ip) {
        let (a, b) = choose|a: int, b: int|
            0 <= a < users1.len() && 0 <= b < users1[a].instances.len() && (
            #[trigger] users1[a].instances[b]).external_ip == Some(ip);
        assert(users2[a].instances[b].external_ip == Some(ip));
        assert(ip_held(users2, ip));
    }
    if ip_held(users2, ip) {
        let (a, b) = choose|a: int, b: int|
            0 <= a < users2.len() && 0 <= b < users2[a].instances.len() && (
            #[trigger] users2[a].instances[b]).external_ip == Some(ip);
        assert(users1[a].instances[b].external_ip == Some(ip));
        assert(ip_held(users1, ip));
    }
}

/// The placement relation only reads node and pool names from the node
/// list, so any list with the same names serves.
proof fn lemma_placements_same_names(
    pre: Seq<UserView>,
    post: Seq<UserView>,
    nodes1: Seq<NodeView>,
    nodes2: Seq<NodeView>,
)
    requires
        only_placements_assigned(pre, post, nodes1),
        nodes2.len() == nodes1.len(),
        forall|k: int| 0 <= k < nodes1.len() ==> (#[trigger] nodes2[k]).name == nodes1[k].name,
        forall|k: int|
            0 <= k < nodes1.len() ==> (#[trigger] nodes2[k]).storage_pools.len()
                == nodes1[k].storage_pools.len(),
        forall|k: int, p: int|
            0 <= k < nodes1.len() && 0 <= p < nodes1[k].storage_pools.len() ==> (
            #[trigger] nodes2[k].storage_pools[p]).name == nodes1[k].storage_pools[p].name,
    ensures
        only_placements_assigned(pre, post, nodes2),
{
    assert forall|u: int| 0 <= u < pre.len() implies {
        let pu = #[trigger] pre[u];
        let qu = #[trigger] post[u];
        &&& qu.username == pu.username
        &&& qu.cpu_quota == pu.cpu_quota
        &&& qu.memory_quota == pu.memory_quota
        &&& qu.disk_quota == pu.disk_quota
        &&& qu.instance_quota == pu.instance_quota
        &&& qu.instances.len() == pu.instances.len()
        &&& forall|i: int|
            0 <= i < pu.instances.len() ==> {
                let pi = #[trigger] pu.instances[i];
                let qi = #[trigger] qu.instances[i];
                ||| qi == pi
                ||| {
                    &&& needs_placement(pi)
                    &&& qi == (InstanceView {
                        node_name: qi.node_name,
                        storage_pool: qi.storage_pool,
                        ..pi
                    })
                    &&& qi.node_name is Some
                    &&& (pi.node_name is Some ==> qi.node_name == pi.node_name)
                    &&& (pi.storage_pool is Some ==> qi.storage_pool == pi.storage_pool)
                    &&& exists|k: int|
                        0 <= k < nodes2.len() && (#[trigger] nodes2[k]).name
                            == qi.node_name->Some_0 && (qi.storage_pool is Some
                            ==> exists|p: int|
                            0 <= p < nodes2[k].storage_pools.len() && (
                            #[trigger] nodes2[k].storage_pools[p]).name
                                == qi.storage_pool->Some_0)
                }
            }
    } by {
        let pu = pre[u];
        let qu = post[u];
        assert forall|i: int| 0 <= i < pu.instances.len() implies {
            let pi = #[trigger] pu.instances[i];
            let qi = #[trigger] qu.instances[i];
            ||| qi == pi
            ||| {
                &&& needs_placement(pi)
                &&& qi == (InstanceView {
                    node_name: qi.node_name,
                    storage_pool: qi.storage_pool,
                    ..pi
                })
                &&& qi.node_name is Some
                &&& (pi.node_name is Some ==> qi.node_name == pi.node_name)
                &&& (pi.storage_pool is Some ==> qi.storage_pool == pi.storage_pool)
                &&& exists|k: int|
                    0 <= k < nodes2.len() && (#[trigger] nodes2[k]).name == qi.node_name->Some_0
                        && (qi.storage_pool is Some ==> exists|p: int|
                        0 <= p < nodes2[k].storage_pools.len() && (
                        #[trigger] nodes2[k].storage_pools[p]).name == qi.storage_pool->Some_0)
            }
        } by {
            let pi = pu.instances[i];
            let qi = qu.instances[i];
            if qi != pi {
                let k = choose|k: int|
                    0 <= k < nodes1.len() && (#[trigger] nodes1[k]).name == qi.node_name->Some_0
                        && (qi.storage_pool is Some ==> exists|p: int|
                        0 <= p < nodes1[k].storage_pools.len() && (
                        #[trigger] nodes1[k].storage_pools[p]).name == qi.storage_pool->Some_0);
                assert(nodes2[k].name == qi.node_name->Some_0);
                if qi.storage_pool is Some {
                    let p = choose|p: int|
                        0 <= p < nodes1[k].storage_pools.len() && (
                        #[trigger] nodes1[k].storage_pools[p]).name == qi.storage_pool->Some_0;
                    assert(nodes2[k].storage_pools[p].name == qi.storage_pool->Some_0);
                }
            }
        }
    }
}

/// One scheduler cycle, as it runs under a single critical section: hand
/// out addresses from the (shuffled) pool, refresh the allocation counters
/// so that placement sees what the instances already claim, then place.
/// The contract re-exports what the pass achieves: addresses were only
/// assigned from the pool and placements only filled in, an instance left
/// without an address means the pool is exhausted, and an instance left
/// without a placement fits on no node.
#[verifier::rlimit(100)]
pub fn scheduler_pass(state: &mut State, ip_pool: &Vec<String>)
    requires
        state_wf(old(state)@),
        nodes_wf(old(state)@.nodes),
        crate::model::allocation_sums_fit(old(state)@),
    ensures
        state_wf(final(state)@),
        nodes_wf(final(state)@.nodes),
        allocations_dominated(final(state)@),
        placement_progress(final(state)@),
        exists|mid: Seq<UserView>|
            only_ips_assigned(old(state)@.users, mid, ip_pool@.map_values(|s: String| s@))
                && #[trigger] only_placements_assigned(
                mid,
                final(state)@.users,
                old(state)@.nodes,
            ),
        forall|u: int, i: int|
            {
                &&& 0 <= u < final(state)@.users.len()
                &&& 0 <= i < final(state)@.users[u].instances.len()
                &&& ((#[trigger] final(state)@.users[u].instances[i]).runtime == Runtime::Lxc
                    || final(state)@.users[u].instances[i].runtime == Runtime::Kvm)
                &&& final(state)@.users[u].instances[i].external_ip is None
            } ==> pool_exhausted(final(state)@.users, ip_pool@.map_values(|s: String| s@)),
{
    let ghost pre = old(state)@;
    allocate_ip(state, ip_pool);
    let ghost mid1 = state@;
    proof {
        // Addresses change nothing the allocation accounting reads.
        assert(same_claims(pre.users, mid1.users));
        assert(crate::model::allocation_sums_fit(mid1)) by {
            assert forall|k: int| 0 <= k < mid1.nodes.len() implies {
                &&& state_cpu_on(mid1.users, (#[trigger] mid1.nodes[k]).name) <= usize::MAX
                &&& state_memory_on(mid1.users, mid1.nodes[k].name) <= usize::MAX
                &&& state_disk_on(mid1.users, mid1.nodes[k].name) <= usize::MAX
            } by {
                lemma_claims_same(pre.users, mid1.users, mid1.nodes[k].name, mid1.nodes[k].name);
                assert(mid1.nodes[k] == pre.nodes[k]);
            }
        }
    }
    state.sync_allocated_resources();
    let ghost mid2 = state@;
    proof {
        assert(state_wf(mid2)) by {
            assert(mid2.users == mid1.users);
        }
        assert(nodes_wf(mid2.nodes)) by {
            assert(forall|k: int|
                0 <= k < mid2.nodes.len() ==> (#[trigger] mid2.nodes[k]).name
                    == mid1.nodes[k].name);
            assert forall|x: int, a: int, b: int|
                0 <= x < mid2.nodes.len() && 0 <= a < b < mid2.nodes[x].storage_pools.len()
                implies (#[trigger] mid2.nodes[x].storage_pools[a]).name != (
            #[trigger] mid2.nodes[x].storage_pools[b]).name by {
                assert(mid2.nodes[x] == crate::model::node_with_allocations(
                    mid1.nodes[x],
                    mid1.users,
                ));
                assert(mid2.nodes[x].storage_pools[a].name == mid1.nodes[x].storage_pools[a].name);
                assert(mid2.nodes[x].storage_pools[b].name == mid1.nodes[x].storage_pools[b].name);
                assert(mid1.nodes[x] == pre.nodes[x]);
            }
        }
        lemma_synced_implies_dominated(mid2);
    }
    schedule(state);
    proof {
        let fin = state@;
        let poolv = ip_pool@.map_values(|s: String| s@);

        // Addresses first, placements second: witness the state between.
        assert(only_placements_assigned(mid2.users, fin.users, mid2.nodes));
        assert(mid2.users == mid1.users);
        assert(forall|k: int|
            0 <= k < mid2.nodes.len() ==> (#[trigger] pre.nodes[k]).name == mid2.nodes[k].name
                && pre.nodes[k].storage_pools.len() == mid2.nodes[k].storage_pools.len());
        assert(forall|k: int, p: int|
            0 <= k < mid2.nodes.len() && 0 <= p < mid2.nodes[k].storage_pools.len() ==> (
            #[trigger] pre.nodes[k].storage_pools[p]).name == mid2.nodes[k].storage_pools[p].name);
        lemma_placements_same_names(mid1.users, fin.users, mid2.nodes, pre.nodes);
        assert(only_ips_assigned(pre.users, mid1.users, poolv) && only_placements_assigned(
            mid1.users,
            fin.users,
            pre.nodes,
        ));

        // Placement touches neither addresses nor runtimes, so an instance
        // left without an address was already without one when the pool was
        // declared exhausted, and the holders are the same now.
        assert(fin.users.len() == mid1.users.len());
        assert forall|a: int|
            0 <= a < mid1.users.len() implies (#[trigger] fin.users[a]).instances.len()
            == mid1.users[a].instances.len() by {}
        assert forall|a: int, b: int|
            0 <= a < mid1.users.len() && 0 <= b < mid1.users[a].instances.len() implies (
        #[trigger] fin.users[a].instances[b]).external_ip == (
        #[trigger] mid1.users[a].instances[b]).external_ip && fin.users[a].instances[b].runtime
            == mid1.users[a].instances[b].runtime by {}
        assert forall|u: int, i: int|
            {
                &&& 0 <= u < fin.users.len()
                &&& 0 <= i < fin.users[u].instances.len()
                &&& ((#[trigger] fin.users[u].instances[i]).runtime == Runtime::Lxc
                    || fin.users[u].instances[i].runtime == Runtime::Kvm)
                &&& fin.users[u].instances[i].external_ip is None
            } implies pool_exhausted(fin.users, poolv) by {
            assert(mid1.users[u].instances[i].external_ip is None);
            assert(mid1.users[u].instances[i].runtime == Runtime::Lxc
                || mid1.users[u].instances[i].runtime == Runtime::Kvm);
            assert(pool_exhausted(mid1.users, poolv));
            assert forall|j: int| 0 <= j < poolv.len() implies ip_held(
                fin.users,
                #[trigger] poolv[j],
            ) by {
                lemma_ip_held_same(mid1.users, fin.users, poolv[j]);
            }
        }
    }
}

} // verus!
