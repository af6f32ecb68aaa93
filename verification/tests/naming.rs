use tispace::catalog::{append_image_tag_if_missing, get_image_alias, get_image_url, get_instance_type, get_runtime_class_name, rootfs_name, verify_instance_name};
use tispace::auth::{authorized, UserClaims};
use tispace::model::{Image, InstanceStage, InstanceStatus, Runtime, State, User};

#[test]
fn test_verify_instance_name() {
    assert!(verify_instance_name("dev01"));
    assert!(verify_instance_name("dev-01"));
    assert!(!verify_instance_name(""));
    assert!(!verify_instance_name("a".repeat(64).as_str()));
    assert!(!verify_instance_name("dev.01"));
    assert!(!verify_instance_name("dev@01"));
    assert!(!verify_instance_name("DEV01"));
    assert!(verify_instance_name("dev-new"));
    assert!(!verify_instance_name("01dev"));
}

#[test]
fn test_append_image_tag_if_missing() {
    assert_eq!(
        append_image_tag_if_missing("tispace/ubuntu2004".to_owned(), "latest"),
        "tispace/ubuntu2004:latest".to_owned()
    );
    assert_eq!(
        append_image_tag_if_missing("tispace/ubuntu2004:1.2.0".to_owned(), "latest"),
        "tispace/ubuntu2004:1.2.0".to_owned()
    );
}

#[test]
fn parses_images_case_insensitively() {
    assert_eq!(Image::parse("ubuntu:20.04"), Some(Image::Ubuntu2004));
    assert_eq!(Image::parse("UBUNTU2204"), Some(Image::Ubuntu2204));
    assert_eq!(Image::parse("tispace/centos7:v1.0"), Some(Image::CentOS7));
    assert_eq!(Image::parse("centos:9-stream"), Some(Image::CentOS9Stream));
    assert_eq!(Image::parse("debian:12"), None);
    assert_eq!(Image::CentOS9Stream.as_str(), "centos:9-Stream");
}

#[test]
fn parses_runtimes_case_insensitively() {
    assert_eq!(Runtime::parse("lxc"), Some(Runtime::Lxc));
    assert_eq!(Runtime::parse("KVM"), Some(Runtime::Kvm));
    assert_eq!(Runtime::parse("Kata"), Some(Runtime::Kata));
    assert_eq!(Runtime::parse("qemu"), None);
    assert_eq!(Runtime::Runc.as_str(), "runc");
}

#[test]
fn stage_and_status_render_and_parse() {
    assert_eq!(InstanceStage::parse("Deleted"), Some(InstanceStage::Deleted));
    assert_eq!(InstanceStage::Running.as_str(), "Running");
    let e = InstanceStatus::parse("Error: pod is Pending").unwrap();
    assert!(e.eq_status(&InstanceStatus::Error("pod is Pending".to_owned())));
    assert_eq!(e.to_string(), "Error: pod is Pending");
    assert!(InstanceStatus::parse("Creating").unwrap().eq_status(&InstanceStatus::Creating));
    assert!(InstanceStatus::parse("Resting").is_none());
}

#[test]
fn backend_catalog_tables() {
    assert_eq!(get_image_alias(&Image::Ubuntu2004), Some("ubuntu/20.04/cloud".to_owned()));
    assert_eq!(get_image_alias(&Image::CentOS8), None);
    assert_eq!(get_instance_type(&Runtime::Kvm), Some("virtual-machine".to_owned()));
    assert_eq!(get_instance_type(&Runtime::Runc), None);
    assert_eq!(get_runtime_class_name(&Runtime::Kata), Some("kata".to_owned()));
    assert_eq!(get_runtime_class_name(&Runtime::Lxc), None);
    assert_eq!(get_image_url(&Image::CentOS7, "latest"), Some("tispace/centos7:latest".to_owned()));
    assert_eq!(get_image_url(&Image::CentOS8, "latest"), None);
    assert_eq!(rootfs_name("alice-dev"), "alice-dev-rootfs");
}

#[test]
fn supported_images_follow_runtime() {
    assert!(Runtime::Lxc.supports_image(&Image::Ubuntu2204));
    assert!(Runtime::Kvm.supports_image(&Image::CentOS7));
    assert!(!Runtime::Lxc.supports_image(&Image::CentOS8));
    assert!(!Runtime::Kata.supports_image(&Image::Ubuntu2004));
    assert!(Runtime::Runc.supported_images().is_empty());
    assert!(Runtime::Kata.compatiable_with(&Runtime::Runc));
    assert!(Runtime::Runc.compatiable_with(&Runtime::Kata));
    assert!(Runtime::Lxc.compatiable_with(&Runtime::Lxc));
    assert!(!Runtime::Lxc.compatiable_with(&Runtime::Kvm));
}

#[test]
fn authorization_checks_the_seeded_tenants() {
    let state = State {
        users: vec![User {
            username: "alice".to_owned(),
            cpu_quota: 1,
            memory_quota: 1,
            disk_quota: 1,
            instance_quota: 1,
            instances: vec![],
        }],
        nodes: vec![],
    };
    let alice = UserClaims { username: "alice".to_owned(), email: "alice@example.com".to_owned() };
    let eve = UserClaims { username: "eve".to_owned(), email: "eve@example.com".to_owned() };
    assert!(authorized(&state, &alice).is_ok());
    assert!(authorized(&state, &eve).is_err());
}
