use tispace::admission::{
    create_instance_with_password, delete_instance, start_instance, stop_instance,
    update_instance, CreateInstanceRequest, UpdateInstanceRequest,
};
use tispace::errors::InstanceError;
use tispace::model::{
    Instance, InstanceStage, InstanceStatus, Node, Runtime, State, StoragePool, User, Image,
};

fn lxd_node() -> Node {
    Node {
        name: "lxd01".to_owned(),
        storage_pools: vec![StoragePool { name: "local".to_owned(), total: 100, used: 0, allocated: 0 }],
        runtimes: vec![Runtime::Lxc, Runtime::Kvm],
        cpu_total: 8,
        cpu_allocated: 0,
        memory_total: 16,
        memory_allocated: 0,
        storage_total: 100,
        storage_used: 0,
        storage_allocated: 0,
    }
}

fn user_with(instances: Vec<Instance>) -> User {
    User {
        username: "alice".to_owned(),
        cpu_quota: 4,
        memory_quota: 16,
        disk_quota: 100,
        instance_quota: 10,
        instances,
    }
}

fn inst(name: &str, cpu: usize, status: InstanceStatus, stage: InstanceStage) -> Instance {
    Instance {
        name: name.to_owned(),
        cpu,
        memory: 1,
        disk_size: 10,
        image: Image::Ubuntu2004,
        hostname: name.to_owned(),
        ssh_host: None,
        ssh_port: None,
        password: "x1y2z3a4b5c6d7e8".to_owned(),
        stage,
        status,
        internal_ip: None,
        external_ip: None,
        runtime: Runtime::Lxc,
        node_name: None,
        storage_pool: None,
    }
}

fn req(name: &str, cpu: usize) -> CreateInstanceRequest {
    CreateInstanceRequest {
        name: name.to_owned(),
        cpu,
        memory: 1,
        disk_size: 10,
        image: "ubuntu:20.04".to_owned(),
        runtime: "lxc".to_owned(),
        node_name: String::new(),
        storage_pool: String::new(),
    }
}

#[test]
fn quota_rejection_reports_the_exact_numbers() {
    let mut state = State {
        users: vec![user_with(vec![inst("base", 3, InstanceStatus::Running, InstanceStage::Running)])],
        nodes: vec![lxd_node()],
    };
    let r = create_instance_with_password(&mut state, "alice", &req("dev", 2), "p".repeat(16));
    match r {
        Err(InstanceError::QuotaExceeded { resource, quota, remaining, requested, unit }) => {
            assert_eq!(resource, "CPU");
            assert_eq!(quota, 4);
            assert_eq!(remaining, 1);
            assert_eq!(requested, 2);
            assert_eq!(unit, "C");
        },
        _ => panic!("expected a cpu quota rejection"),
    }
    let msg = InstanceError::QuotaExceeded {
        resource: "CPU".to_owned(),
        quota: 4,
        remaining: 1,
        requested: 2,
        unit: "C".to_owned(),
    }
    .message();
    assert_eq!(msg, "CPU quota exceeded, quota: 4C, remaining: 1C, requested: 2C");
    assert_eq!(state.users[0].instances.len(), 1);
}

#[test]
fn name_validation_gates_creation() {
    let mut state = State { users: vec![user_with(vec![])], nodes: vec![lxd_node()] };
    match create_instance_with_password(&mut state, "alice", &req("01dev", 1), "p".repeat(16)) {
        Err(InstanceError::InvalidArgs(f)) => assert_eq!(f, "name"),
        _ => panic!("expected a name rejection"),
    }
    match create_instance_with_password(&mut state, "alice", &req("dev.01", 1), "p".repeat(16)) {
        Err(InstanceError::InvalidArgs(f)) => assert_eq!(f, "name"),
        _ => panic!("expected a name rejection"),
    }
    let r = create_instance_with_password(&mut state, "alice", &req("dev-01", 1), "p".repeat(16));
    assert!(matches!(r, Ok(true)));
    let i = &state.users[0].instances[0];
    assert_eq!(i.name, "dev-01");
    assert_eq!(i.stage, InstanceStage::Running);
    assert!(i.status.eq_status(&InstanceStatus::Creating));
    assert!(i.external_ip.is_none());
}

#[test]
fn duplicate_names_and_image_catalog_are_rejected() {
    let mut state = State {
        users: vec![user_with(vec![inst("dev", 1, InstanceStatus::Running, InstanceStage::Running)])],
        nodes: vec![lxd_node()],
    };
    match create_instance_with_password(&mut state, "alice", &req("dev", 1), "p".repeat(16)) {
        Err(InstanceError::AlreadyExists) => {},
        _ => panic!("expected a duplicate rejection"),
    }
    let mut bad = req("dev2", 1);
    bad.runtime = "kata".to_owned();
    match create_instance_with_password(&mut state, "alice", &bad, "p".repeat(16)) {
        Err(InstanceError::ImageUnavailable { image, runtime }) => {
            assert_eq!(image, "ubuntu:20.04");
            assert_eq!(runtime, "kata");
        },
        _ => panic!("expected an image rejection"),
    }
    let mut pinned = req("dev3", 1);
    pinned.node_name = "ghost".to_owned();
    match create_instance_with_password(&mut state, "alice", &pinned, "p".repeat(16)) {
        Err(InstanceError::UnknownNode(n)) => assert_eq!(n, "ghost"),
        _ => panic!("expected an unknown-node rejection"),
    }
}

#[test]
fn pod_runtimes_fail_the_image_gate_first() {
    // The image catalog gate runs before the pool-pinning gate, and the pod
    // runtimes support no image at all, so the image rejection wins.
    let mut state = State { users: vec![user_with(vec![])], nodes: vec![lxd_node()] };
    let mut r = req("dev", 1);
    r.runtime = "runc".to_owned();
    r.image = "ubuntu:20.04".to_owned();
    r.storage_pool = "local".to_owned();
    match create_instance_with_password(&mut state, "alice", &r, "p".repeat(16)) {
        Err(InstanceError::ImageUnavailable { image: _, runtime }) => assert_eq!(runtime, "runc"),
        _ => panic!("expected an image rejection"),
    }
    assert_eq!(
        InstanceError::StoragePoolCannotBeSpecified { runtime: "runc".to_owned() }.message(),
        "Storage pool cannot be specified for runtime runc"
    );
}

#[test]
fn stop_update_start_cycle() {
    let mut state = State {
        users: vec![user_with(vec![inst("dev", 1, InstanceStatus::Running, InstanceStage::Running)])],
        nodes: vec![lxd_node()],
    };
    let upd = UpdateInstanceRequest { cpu: Some(4), memory: None, runtime: None };
    match update_instance(&mut state, "alice", "dev", &upd) {
        Err(InstanceError::NotYetStopped) => {},
        _ => panic!("expected a not-yet-stopped rejection"),
    }
    assert!(matches!(stop_instance(&mut state, "alice", "dev"), Ok(true)));
    assert_eq!(state.users[0].instances[0].stage, InstanceStage::Stopped);
    assert!(state.users[0].instances[0].status.eq_status(&InstanceStatus::Stopping));
    state.users[0].instances[0].status = InstanceStatus::Stopped;
    assert!(matches!(update_instance(&mut state, "alice", "dev", &upd), Ok(true)));
    assert_eq!(state.users[0].instances[0].cpu, 4);
    assert!(matches!(start_instance(&mut state, "alice", "dev"), Ok(true)));
    assert_eq!(state.users[0].instances[0].stage, InstanceStage::Running);
    assert!(state.users[0].instances[0].status.eq_status(&InstanceStatus::Starting));
    assert!(matches!(start_instance(&mut state, "alice", "dev"), Ok(false)));
}

#[test]
fn deleted_records_refuse_further_transitions() {
    let mut state = State {
        users: vec![user_with(vec![inst("dev", 1, InstanceStatus::Running, InstanceStage::Running)])],
        nodes: vec![lxd_node()],
    };
    assert!(delete_instance(&mut state, "alice", "dev"));
    assert_eq!(state.users[0].instances[0].stage, InstanceStage::Deleted);
    // An lxc instance must stop before it can be destroyed.
    assert!(state.users[0].instances[0].status.eq_status(&InstanceStatus::Stopping));
    assert!(matches!(
        start_instance(&mut state, "alice", "dev"),
        Err(InstanceError::AlreadyDeleted)
    ));
    assert!(matches!(
        stop_instance(&mut state, "alice", "dev"),
        Err(InstanceError::AlreadyDeleted)
    ));
    let upd = UpdateInstanceRequest { cpu: Some(2), memory: None, runtime: None };
    assert!(matches!(
        update_instance(&mut state, "alice", "dev", &upd),
        Err(InstanceError::AlreadyDeleted)
    ));
    assert!(!delete_instance(&mut state, "alice", "dev"));
}

#[test]
fn pod_deletions_mark_deleting_directly() {
    let mut base = inst("pod", 1, InstanceStatus::Running, InstanceStage::Running);
    base.runtime = Runtime::Runc;
    base.image = Image::Ubuntu2004;
    let mut state = State { users: vec![user_with(vec![base])], nodes: vec![lxd_node()] };
    assert!(delete_instance(&mut state, "alice", "pod"));
    assert!(state.users[0].instances[0].status.eq_status(&InstanceStatus::Deleting));
}

#[test]
fn unknown_users_change_nothing() {
    let mut state = State { users: vec![user_with(vec![])], nodes: vec![lxd_node()] };
    assert!(matches!(
        create_instance_with_password(&mut state, "mallory", &req("dev", 1), "p".repeat(16)),
        Ok(false)
    ));
    assert!(matches!(start_instance(&mut state, "mallory", "dev"), Ok(false)));
    assert!(!delete_instance(&mut state, "mallory", "dev"));
    assert!(state.users[0].instances.is_empty());
}

#[test]
fn errors_map_to_their_statuses() {
    assert_eq!(InstanceError::AlreadyExists.status_code(), 409);
    assert_eq!(InstanceError::NotYetStopped.status_code(), 400);
    assert_eq!(InstanceError::ResourceExhausted.status_code(), 422);
    assert_eq!(InstanceError::CreateFailed.status_code(), 500);
    assert_eq!(InstanceError::InvalidArgs("name".to_owned()).status_code(), 400);
    assert_eq!(
        InstanceError::UnknownStoragePool("p".to_owned()).message(),
        "Unknown storage pool p"
    );
    assert_eq!(tispace::errors::AuthError::UnauthorizedUser.status_code(), 401);
    assert_eq!(tispace::errors::AuthError::InvalidToken.message(), "Invalid token");
}

#[test]
fn the_remaining_rejections_have_inputs() {
    // A pinned pool nothing offers.
    let mut state = State { users: vec![user_with(vec![])], nodes: vec![lxd_node()] };
    let mut r = req("dev", 1);
    r.storage_pool = "ghost".to_owned();
    match create_instance_with_password(&mut state, "alice", &r, "p".repeat(16)) {
        Err(InstanceError::UnknownStoragePool(p)) => assert_eq!(p, "ghost"),
        _ => panic!("expected an unknown-pool rejection"),
    }
    // A node pool too small for the disk.
    let mut tiny = lxd_node();
    tiny.storage_pools[0].total = 5;
    tiny.storage_total = 5;
    let mut state = State { users: vec![user_with(vec![])], nodes: vec![tiny] };
    match create_instance_with_password(&mut state, "alice", &req("dev", 1), "p".repeat(16)) {
        Err(InstanceError::ResourceExhausted) => {},
        _ => panic!("expected a capacity rejection"),
    }
    // An incompatible runtime change on a stopped instance.
    let mut stopped = inst("dev", 1, InstanceStatus::Stopped, InstanceStage::Running);
    stopped.runtime = Runtime::Lxc;
    let mut state = State { users: vec![user_with(vec![stopped])], nodes: vec![lxd_node()] };
    let upd = UpdateInstanceRequest { cpu: None, memory: None, runtime: Some("kvm".to_owned()) };
    match update_instance(&mut state, "alice", "dev", &upd) {
        Err(InstanceError::RuntimeIncompatible { current, target }) => {
            assert_eq!(current, "lxc");
            assert_eq!(target, "kvm");
        },
        _ => panic!("expected an incompatibility rejection"),
    }
    // Explicit zeros and unknown runtimes are malformed updates.
    let upd = UpdateInstanceRequest { cpu: Some(0), memory: None, runtime: None };
    match update_instance(&mut state, "alice", "dev", &upd) {
        Err(InstanceError::InvalidArgs(f)) => assert_eq!(f, "cpu"),
        _ => panic!("expected a zero-cpu rejection"),
    }
    let upd = UpdateInstanceRequest { cpu: None, memory: None, runtime: Some("qemu".to_owned()) };
    match update_instance(&mut state, "alice", "dev", &upd) {
        Err(InstanceError::InvalidArgs(f)) => assert_eq!(f, "qemu"),
        _ => panic!("expected an unknown-runtime rejection"),
    }
    // The memory quota, like the cpu quota, reports exact numbers.
    let mut state = State {
        users: vec![user_with(vec![inst("big", 1, InstanceStatus::Running, InstanceStage::Running)])],
        nodes: vec![lxd_node()],
    };
    let mut r = req("more", 1);
    r.memory = 16;
    match create_instance_with_password(&mut state, "alice", &r, "p".repeat(16)) {
        Err(InstanceError::QuotaExceeded { resource, quota, remaining, requested, unit }) => {
            assert_eq!(resource, "Memory");
            assert_eq!(quota, 16);
            assert_eq!(remaining, 15);
            assert_eq!(requested, 16);
            assert_eq!(unit, "GiB");
        },
        _ => panic!("expected a memory quota rejection"),
    }
}

#[test]
fn updating_a_missing_instance_is_not_found() {
    let mut state = State { users: vec![user_with(vec![])], nodes: vec![lxd_node()] };
    let upd = UpdateInstanceRequest { cpu: Some(2), memory: None, runtime: None };
    match update_instance(&mut state, "alice", "ghost", &upd) {
        Err(InstanceError::InstanceNotFound) => {},
        _ => panic!("expected a not-found rejection"),
    }
    assert_eq!(InstanceError::InstanceNotFound.status_code(), 404);
    assert_eq!(InstanceError::InstanceNotFound.message(), "Instance not found");
}

#[test]
fn well_formedness_is_decidable() {
    let good = State {
        users: vec![user_with(vec![inst("dev", 1, InstanceStatus::Running, InstanceStage::Running)])],
        nodes: vec![lxd_node()],
    };
    assert!(good.is_well_formed());
    // Over quota.
    let mut over = good.clone();
    over.users[0].instances[0].cpu = 99;
    assert!(!over.is_well_formed());
    // Duplicate instance names.
    let mut dup = good.clone();
    let copy = dup.users[0].instances[0].clone();
    dup.users[0].instances.push(copy);
    assert!(!dup.is_well_formed());
    // Duplicate external addresses.
    let mut clash = good.clone();
    let mut second = clash.users[0].instances[0].clone();
    second.name = "dev2".to_owned();
    clash.users[0].instances[0].external_ip = Some("192.0.2.10".to_owned());
    second.external_ip = Some("192.0.2.10".to_owned());
    clash.users[0].instances.push(second);
    assert!(!clash.is_well_formed());
}
