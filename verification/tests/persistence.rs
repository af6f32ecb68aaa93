use tispace::codec::{state_from_document, state_to_document};
use tispace::collector::{kube_node, merge_into, overcommit_cpu, overcommit_memory, ScaleFactor};
use tispace::model::{Image, Instance, InstanceStage, InstanceStatus, Node, Runtime, State, StoragePool, User};
use tispace::reconcile::{lxd_action, pod_action, LxdAction, PodAction};
use tispace::text::usize_to_string;

fn sample_state() -> State {
    State {
        users: vec![User {
            username: "alice".to_owned(),
            cpu_quota: 16,
            memory_quota: 32,
            disk_quota: 200,
            instance_quota: 5,
            instances: vec![Instance {
                name: "dev-01".to_owned(),
                cpu: 2,
                memory: 4,
                disk_size: 20,
                image: Image::CentOS9Stream,
                hostname: "dev-01".to_owned(),
                ssh_host: Some("198.51.100.4".to_owned()),
                ssh_port: Some(30022),
                password: "x1y2z3a4b5c6d7e8".to_owned(),
                stage: InstanceStage::Running,
                status: InstanceStatus::Error("pod said \"no\"".to_owned()),
                internal_ip: None,
                external_ip: Some("192.0.2.10".to_owned()),
                runtime: Runtime::Kvm,
                node_name: Some("lxd01".to_owned()),
                storage_pool: Some("local".to_owned()),
            }],
        }],
        nodes: vec![Node {
            name: "lxd01".to_owned(),
            storage_pools: vec![StoragePool { name: "local".to_owned(), total: 100, used: 7, allocated: 20 }],
            runtimes: vec![Runtime::Lxc, Runtime::Kvm],
            cpu_total: 8,
            cpu_allocated: 2,
            memory_total: 16,
            memory_allocated: 4,
            storage_total: 100,
            storage_used: 7,
            storage_allocated: 20,
        }],
    }
}

#[test]
fn a_committed_document_reads_back_identically() {
    let state = sample_state();
    let doc = state_to_document(&state);
    let back = state_from_document(doc.as_str()).expect("the document parses");
    // Rendering is injective on views (parsing inverts it), so comparing
    // the rendered forms compares the states.
    assert_eq!(state_to_document(&back), doc);
    let i = &back.users[0].instances[0];
    assert_eq!(i.name, "dev-01");
    assert!(i.status.eq_status(&InstanceStatus::Error("pod said \"no\"".to_owned())));
    assert_eq!(i.ssh_port, Some(30022));
    assert_eq!(back.nodes[0].storage_pools[0].total, 100);
}

#[test]
fn empty_state_round_trips_and_malformed_documents_fail() {
    let empty = State::new();
    let doc = state_to_document(&empty);
    assert_eq!(doc, "{\"users\":[],\"nodes\":[]}");
    let back = state_from_document(doc.as_str()).expect("the empty document parses");
    assert!(back.users.is_empty() && back.nodes.is_empty());
    assert!(state_from_document("").is_none());
    assert!(state_from_document("{\"users\":[}").is_none());
    assert!(state_from_document("{\"users\":[],\"nodes\":[]}trailing").is_none());
}

#[test]
fn decimal_rendering_matches() {
    assert_eq!(usize_to_string(0), "0");
    assert_eq!(usize_to_string(7), "7");
    assert_eq!(usize_to_string(120), "120");
    assert_eq!(usize_to_string(98765), "98765");
}

#[test]
fn overcommit_scales_by_the_ratio() {
    let f = ScaleFactor { num: 3, den: 2 };
    assert_eq!(overcommit_cpu(8, &f), 12);
    assert_eq!(overcommit_memory(16, &f), 24);
    let one = ScaleFactor::one();
    assert_eq!(overcommit_cpu(5, &one), 5);
    assert_eq!(overcommit_cpu(0, &f), 0);
}

#[test]
fn kube_nodes_read_their_capacity_quantities() {
    let n = kube_node("k8s01".to_owned(), "4", "8Gi");
    assert_eq!(n.name, "k8s01");
    assert_eq!(n.cpu_total, 4);
    assert_eq!(n.memory_total, 8);
    assert_eq!(n.runtimes, vec![Runtime::Kata, Runtime::Runc]);
    assert!(n.storage_pools.is_empty());
    let m = kube_node("k8s02".to_owned(), "3500m", "16384Ki");
    assert_eq!(m.cpu_total, 3);
    assert_eq!(m.memory_total, 0);
}

#[test]
fn merging_unions_runtimes_and_pools() {
    let mut acc = Node {
        name: "n1".to_owned(),
        storage_pools: vec![],
        runtimes: vec![],
        cpu_total: 0,
        cpu_allocated: 0,
        memory_total: 0,
        memory_allocated: 0,
        storage_total: 0,
        storage_used: 0,
        storage_allocated: 0,
    };
    let kube = kube_node("n1".to_owned(), "16", "32Gi");
    merge_into(&mut acc, &kube);
    let lxd = Node {
        name: "n1".to_owned(),
        storage_pools: vec![StoragePool { name: "local".to_owned(), total: 100, used: 30, allocated: 0 }],
        runtimes: vec![Runtime::Lxc, Runtime::Kvm],
        cpu_total: 8,
        cpu_allocated: 0,
        memory_total: 64,
        memory_allocated: 0,
        storage_total: 100,
        storage_used: 30,
        storage_allocated: 0,
    };
    merge_into(&mut acc, &lxd);
    assert_eq!(acc.runtimes, vec![Runtime::Kata, Runtime::Runc, Runtime::Lxc, Runtime::Kvm]);
    assert_eq!(acc.storage_pools.len(), 1);
    assert_eq!(acc.storage_total, 100);
    assert_eq!(acc.storage_used, 30);
    // The smaller positive capacity wins; zero means unknown.
    assert_eq!(acc.cpu_total, 8);
    assert_eq!(acc.memory_total, 32);
}

#[test]
fn reconciler_decisions_follow_the_tables() {
    let mut i = sample_state().users[0].instances[0].clone();
    i.runtime = Runtime::Runc;
    i.stage = InstanceStage::Stopped;
    i.status = InstanceStatus::Running;
    assert_eq!(pod_action(&i), PodAction::DeletePod);
    i.stage = InstanceStage::Running;
    assert_eq!(pod_action(&i), PodAction::Observe);
    i.external_ip = None;
    assert_eq!(pod_action(&i), PodAction::CreateResources);
    i.status = InstanceStatus::Creating;
    i.node_name = None;
    assert_eq!(pod_action(&i), PodAction::Wait);
    i.stage = InstanceStage::Deleted;
    i.node_name = Some("n".to_owned());
    assert_eq!(pod_action(&i), PodAction::DeleteAll);

    let mut l = sample_state().users[0].instances[0].clone();
    l.stage = InstanceStage::Running;
    l.status = InstanceStatus::Creating;
    assert_eq!(lxd_action(&l), LxdAction::Create);
    l.status = InstanceStatus::Stopped;
    assert_eq!(lxd_action(&l), LxdAction::SyncAndStart);
    l.stage = InstanceStage::Deleted;
    l.status = InstanceStatus::Stopped;
    assert_eq!(lxd_action(&l), LxdAction::Stop);
    l.status = InstanceStatus::Deleting;
    assert_eq!(lxd_action(&l), LxdAction::Delete);
    l.stage = InstanceStage::Stopped;
    l.status = InstanceStatus::Missing;
    assert_eq!(lxd_action(&l), LxdAction::Observe);
}
