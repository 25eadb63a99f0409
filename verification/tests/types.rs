use ttcore::types::{Ipv4, VmKind, CPU_DEFAULT, DISK_DEFAULT, EXEC_PORT, MEMORY_DEFAULT, SSH_PORT};

#[test]
fn ipv4_keeps_its_address() {
    let ip = Ipv4::new("127.0.0.1".to_string());
    assert_eq!(ip.as_str(), "127.0.0.1");
    assert_eq!(ip.to_display_string(), "127.0.0.1");
    assert_eq!(ip.clone().as_str(), "127.0.0.1");
    assert_eq!(Ipv4::default().as_str(), "");
}

#[test]
fn vm_kind_names() {
    assert_eq!(VmKind::Qemu.to_display_string(), "qemu");
    assert_eq!(VmKind::Bhyve.to_display_string(), "bhyve");
    assert_eq!(VmKind::FireCracker.to_display_string(), "fireCracker");
    assert_eq!(VmKind::Docker.to_display_string(), "docker");
    assert_eq!(VmKind::Unknown.to_display_string(), "unKnow");
}

#[test]
fn vm_kind_default_is_docker() {
    assert_eq!(VmKind::default(), VmKind::Docker);
}

#[test]
fn default_hardware() {
    assert_eq!(CPU_DEFAULT, 2);
    assert_eq!(MEMORY_DEFAULT, 1024);
    assert_eq!(DISK_DEFAULT, 40960);
    assert_eq!(SSH_PORT, 22);
    assert_eq!(EXEC_PORT, 38888);
}
