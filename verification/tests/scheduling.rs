use tispace::model::{Image, Instance, InstanceStage, InstanceStatus, Node, Runtime, State, StoragePool, User};
use tispace::reconcile::{lxd_writeback_missing, lxd_writeback_report, pod_observed_status, pod_writeback, PodObservation};
use tispace::scheduler::{allocate_ip, schedule};
use tispace::dto::list_instances;

fn lxd_node(name: &str, cpu: usize) -> Node {
    Node {
        name: name.to_owned(),
        storage_pools: vec![StoragePool { name: "local".to_owned(), total: 100, used: 0, allocated: 0 }],
        runtimes: vec![Runtime::Lxc, Runtime::Kvm],
        cpu_total: cpu,
        cpu_allocated: 0,
        memory_total: 16,
        memory_allocated: 0,
        storage_total: 100,
        storage_used: 0,
        storage_allocated: 0,
    }
}

fn creating(name: &str, runtime: Runtime) -> Instance {
    Instance {
        name: name.to_owned(),
        cpu: 2,
        memory: 4,
        disk_size: 20,
        image: Image::Ubuntu2004,
        hostname: name.to_owned(),
        ssh_host: None,
        ssh_port: None,
        password: "x1y2z3a4b5c6d7e8".to_owned(),
        stage: InstanceStage::Running,
        status: InstanceStatus::Creating,
        internal_ip: None,
        external_ip: None,
        runtime,
        node_name: None,
        storage_pool: None,
    }
}

fn one_user(instances: Vec<Instance>) -> Vec<User> {
    vec![User {
        username: "alice".to_owned(),
        cpu_quota: 40,
        memory_quota: 64,
        disk_quota: 400,
        instance_quota: 10,
        instances,
    }]
}

#[test]
fn place_and_converge_a_container() {
    let mut state = State {
        users: one_user(vec![creating("i1", Runtime::Lxc)]),
        nodes: vec![lxd_node("lxd01", 8)],
    };
    let pool = vec!["192.0.2.10".to_owned()];
    allocate_ip(&mut state, &pool);
    assert_eq!(state.users[0].instances[0].external_ip, Some("192.0.2.10".to_owned()));
    state.sync_allocated_resources();
    schedule(&mut state);
    let i = &state.users[0].instances[0];
    assert_eq!(i.node_name, Some("lxd01".to_owned()));
    assert_eq!(i.storage_pool, Some("local".to_owned()));
    assert!(i.status.eq_status(&InstanceStatus::Creating));
    assert_eq!(state.nodes[0].cpu_allocated, 2);
    assert_eq!(state.nodes[0].storage_pools[0].allocated, 20);

    // The backend reports the instance running with an address.
    assert!(lxd_writeback_report(&mut state, "alice", "i1", "Running", Some("10.1.2.3".to_owned())));
    let i = &state.users[0].instances[0];
    assert!(i.status.eq_status(&InstanceStatus::Running));
    assert_eq!(i.internal_ip, Some("10.1.2.3".to_owned()));
}

#[test]
fn best_fit_prefers_the_freest_node() {
    let mut state = State {
        users: one_user(vec![creating("i1", Runtime::Kvm)]),
        nodes: vec![lxd_node("small", 4), lxd_node("big", 16)],
    };
    let pool = vec!["192.0.2.10".to_owned()];
    allocate_ip(&mut state, &pool);
    state.sync_allocated_resources();
    schedule(&mut state);
    assert_eq!(state.users[0].instances[0].node_name, Some("big".to_owned()));
}

#[test]
fn exhausted_ip_pool_leaves_instances_waiting() {
    let mut state = State {
        users: one_user(vec![creating("i1", Runtime::Lxc), creating("i2", Runtime::Lxc)]),
        nodes: vec![lxd_node("lxd01", 8)],
    };
    let pool = vec!["192.0.2.10".to_owned()];
    allocate_ip(&mut state, &pool);
    let with_ip = state.users[0]
        .instances
        .iter()
        .filter(|i| i.external_ip.is_some())
        .count();
    assert_eq!(with_ip, 1);
    // Without an address the second instance is not placed either.
    state.sync_allocated_resources();
    schedule(&mut state);
    let unplaced = state.users[0].instances.iter().filter(|i| i.node_name.is_none()).count();
    assert_eq!(unplaced, 1);
}

#[test]
fn ips_are_never_duplicated() {
    let mut state = State {
        users: one_user(vec![creating("i1", Runtime::Lxc), creating("i2", Runtime::Kvm)]),
        nodes: vec![lxd_node("lxd01", 8)],
    };
    let pool = vec!["192.0.2.10".to_owned(), "192.0.2.11".to_owned()];
    allocate_ip(&mut state, &pool);
    let a = state.users[0].instances[0].external_ip.clone().unwrap();
    let b = state.users[0].instances[1].external_ip.clone().unwrap();
    assert_ne!(a, b);
    assert!(pool.contains(&a) && pool.contains(&b));
}

#[test]
fn pinned_nodes_are_honoured() {
    let mut i = creating("i1", Runtime::Lxc);
    i.node_name = Some("lxd02".to_owned());
    i.external_ip = Some("192.0.2.10".to_owned());
    let mut state = State {
        users: one_user(vec![i]),
        nodes: vec![lxd_node("lxd01", 32), lxd_node("lxd02", 4)],
    };
    state.sync_allocated_resources();
    schedule(&mut state);
    let i = &state.users[0].instances[0];
    assert_eq!(i.node_name, Some("lxd02".to_owned()));
    assert_eq!(i.storage_pool, Some("local".to_owned()));
}

#[test]
fn deletion_converges_to_removal() {
    let mut done = creating("i1", Runtime::Lxc);
    done.stage = InstanceStage::Deleted;
    done.status = InstanceStatus::Deleting;
    let mut state = State { users: one_user(vec![done]), nodes: vec![lxd_node("lxd01", 8)] };
    // The backend no longer has the instance: the record goes away.
    assert!(lxd_writeback_missing(&mut state, "alice", "i1"));
    assert!(state.users[0].instances.is_empty());
    assert!(list_instances(&state, "alice").is_empty());
}

#[test]
fn a_vanished_backend_instance_spares_one_still_creating() {
    // The backend has simply not created it yet: the record is untouched.
    let mut state = State {
        users: one_user(vec![creating("i1", Runtime::Lxc)]),
        nodes: vec![lxd_node("lxd01", 8)],
    };
    assert!(!lxd_writeback_missing(&mut state, "alice", "i1"));
    assert!(state.users[0].instances[0].status.eq_status(&InstanceStatus::Creating));
    // A record past creation is observed Missing.
    state.users[0].instances[0].status = InstanceStatus::Running;
    assert!(lxd_writeback_missing(&mut state, "alice", "i1"));
    assert!(state.users[0].instances[0].status.eq_status(&InstanceStatus::Missing));
    // The container/VM write-backs ignore pod-based records.
    state.users[0].instances[0].runtime = Runtime::Runc;
    assert!(!lxd_writeback_missing(&mut state, "alice", "i1"));
    assert!(!lxd_writeback_report(&mut state, "alice", "i1", "Running", None));
}

#[test]
fn the_backend_documents_render_exactly() {
    let ud = tispace::reconcile::lxd_user_data("dev-01", "x1y2z3a4b5c6d7e8");
    assert_eq!(
        ud,
        "#cloud-config
hostname: dev-01
fqdn: dev-01
ssh_pwauth: true
disable_root: false
chpasswd:
  expire: false
  list:
  - root:x1y2z3a4b5c6d7e8
"
    );
    let nc = tispace::reconcile::lxd_network_config(
        tispace::model::Image::Ubuntu2004,
        Runtime::Kvm,
        "192.0.2.10",
        24,
    );
    assert!(nc.contains("name: enp5s0"));
    assert!(nc.contains("name: enp6s0"));
    assert!(nc.contains("- 192.0.2.10/24"));
    let c7 = tispace::reconcile::lxd_network_config(
        tispace::model::Image::CentOS7,
        Runtime::Lxc,
        "192.0.2.10",
        32,
    );
    assert!(c7.contains("version: 1"));
    assert!(c7.contains("address: 192.0.2.10/32"));
    assert!(tispace::reconcile::lxd_limits_patch(4, 8, "Stopped", "2", "8GiB"));
    assert!(!tispace::reconcile::lxd_limits_patch(4, 8, "Stopped", "4", "8GiB"));
    assert!(!tispace::reconcile::lxd_limits_patch(4, 8, "Running", "2", "8GiB"));
}

#[test]
fn pod_status_follows_the_observation_table() {
    let running = pod_observed_status(
        InstanceStage::Running,
        &InstanceStatus::Starting,
        true,
        "Running",
    );
    assert!(running.eq_status(&InstanceStatus::Running));
    let tainted = pod_observed_status(
        InstanceStage::Running,
        &InstanceStatus::Running,
        true,
        "Pending",
    );
    assert!(tainted.eq_status(&InstanceStatus::Error("Pod is Pending".to_owned())));
    let starting = pod_observed_status(
        InstanceStage::Running,
        &InstanceStatus::Starting,
        true,
        "Pending",
    );
    assert!(starting.eq_status(&InstanceStatus::Starting));
    let missing = pod_observed_status(
        InstanceStage::Running,
        &InstanceStatus::Running,
        false,
        "",
    );
    assert!(missing.eq_status(&InstanceStatus::Missing));
    let stopped = pod_observed_status(
        InstanceStage::Stopped,
        &InstanceStatus::Stopping,
        false,
        "",
    );
    assert!(stopped.eq_status(&InstanceStatus::Stopped));
}

#[test]
fn writebacks_are_idempotent_in_practice() {
    let mut state = State {
        users: one_user(vec![creating("i1", Runtime::Lxc)]),
        nodes: vec![lxd_node("lxd01", 8)],
    };
    assert!(lxd_writeback_report(&mut state, "alice", "i1", "Stopped", None));
    let once = format!("{:?}", state.users[0].instances[0]);
    assert!(lxd_writeback_report(&mut state, "alice", "i1", "Stopped", None));
    let twice = format!("{:?}", state.users[0].instances[0]);
    assert_eq!(once, twice);
}

#[test]
fn pod_observation_writes_back_guardedly() {
    let mut pod = creating("p1", Runtime::Runc);
    pod.stage = InstanceStage::Running;
    pod.status = InstanceStatus::Starting;
    let mut other = creating("p2", Runtime::Lxc);
    other.external_ip = Some("203.0.113.9".to_owned());
    let mut state = State {
        users: one_user(vec![pod, other]),
        nodes: vec![lxd_node("lxd01", 8)],
    };
    let o = PodObservation {
        all_gone: false,
        status: InstanceStatus::Running,
        ssh_host: Some("198.51.100.4".to_owned()),
        ssh_port: Some(30022),
        internal_ip: Some("10.0.0.8".to_owned()),
        external_ip: Some("203.0.113.9".to_owned()),
        node_name: Some("k8s01".to_owned()),
        storage_pool: None,
    };
    assert!(pod_writeback(&mut state, "alice", "p1", InstanceStage::Running, &o));
    let i = &state.users[0].instances[0];
    assert!(i.status.eq_status(&InstanceStatus::Running));
    assert_eq!(i.ssh_port, Some(30022));
    assert_eq!(i.node_name, Some("k8s01".to_owned()));
    // The discovered address is already held by another instance, so it is
    // not copied in and addresses stay unique.
    assert_eq!(i.external_ip, None);
    // The compare of the desired stage guards against meanwhile re-staged
    // records.
    assert!(!pod_writeback(&mut state, "alice", "p1", InstanceStage::Stopped, &o));
}

#[test]
fn password_generation_is_sixteen_alphanumerics() {
    let p = tispace::random::random_password();
    assert_eq!(p.chars().count(), 16);
    assert!(p.chars().all(|c| c.is_ascii_alphanumeric()));
}

#[test]
fn shuffling_keeps_the_pool() {
    let mut v = vec!["a".to_owned(), "b".to_owned(), "c".to_owned(), "d".to_owned()];
    tispace::random::shuffle_strings(&mut v);
    let mut sorted = v.clone();
    sorted.sort();
    assert_eq!(sorted, vec!["a".to_owned(), "b".to_owned(), "c".to_owned(), "d".to_owned()]);
}

#[test]
fn a_whole_scheduler_pass_places_and_accounts() {
    let mut state = State {
        users: one_user(vec![creating("i1", Runtime::Lxc)]),
        nodes: vec![lxd_node("lxd01", 8)],
    };
    assert!(tispace::scheduler::nodes_well_formed(&state));
    assert!(state.is_well_formed());
    let pool = vec!["192.0.2.10".to_owned()];
    tispace::scheduler::scheduler_pass(&mut state, &pool);
    let i = &state.users[0].instances[0];
    assert_eq!(i.external_ip, Some("192.0.2.10".to_owned()));
    assert_eq!(i.node_name, Some("lxd01".to_owned()));
    assert_eq!(i.storage_pool, Some("local".to_owned()));
    assert_eq!(state.nodes[0].cpu_allocated, 2);
    assert_eq!(state.nodes[0].memory_allocated, 4);
    assert_eq!(state.nodes[0].storage_allocated, 20);
}
