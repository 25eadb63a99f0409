use ttcore::env::Vm;
use ttcore::error::CoreError;
use ttcore::images::{normalize_img_root, select_os_images, vm_img_path, vm_kind};
use ttcore::table::Table;
use ttcore::types::{Ipv4, VmKind};

fn vm(id: i32, path: &str) -> Vm {
    Vm {
        image_path: path.to_string(),
        kind: VmKind::Qemu,
        cpu_num: 1,
        memory_size: 1,
        disk_size: 1,
        id,
        ip: Ipv4::default(),
        port_map: Table::new(),
        during_stop: false,
        image_cached: false,
        rand_uuid: false,
    }
}

#[test]
fn vm_kind_by_prefix() {
    assert_eq!(vm_kind("qemu-centos7"), Ok(VmKind::Qemu));
    assert_eq!(vm_kind("QEMU-Ubuntu"), Ok(VmKind::Qemu));
    assert_eq!(vm_kind("FireCracker-alpine"), Ok(VmKind::FireCracker));
    assert_eq!(vm_kind("docker-x"), Err(CoreError::InvalidOsName));
    assert_eq!(vm_kind(""), Err(CoreError::InvalidOsName));
}

#[test]
fn select_offered_images() {
    let entries = vec![
        ("qemu-CentOS".to_string(), "/zfs/qemu-CentOS".to_string()),
        ("qemu-centos@base".to_string(), "/zfs/qemu-centos@base".to_string()),
        ("qemu-x-part1".to_string(), "/zfs/qemu-x-part1".to_string()),
        ("clone_qemu".to_string(), "/zfs/clone_qemu".to_string()),
        ("fire-alpine".to_string(), "/zfs/fire-alpine".to_string()),
        ("bsd".to_string(), "/zfs/bsd".to_string()),
        ("QEMU-centos".to_string(), "/zfs/QEMU-centos".to_string()),
    ];
    let t = select_os_images(&entries);
    assert_eq!(t.len(), 2);
    assert_eq!(t.get(&"qemu-centos".to_string()).unwrap(), "/zfs/QEMU-centos");
    assert_eq!(t.get(&"fire-alpine".to_string()).unwrap(), "/zfs/fire-alpine");
}

#[test]
fn img_root_is_trimmed() {
    assert_eq!(normalize_img_root("/dev/zvol/tank/images/"), "/tank/images");
    assert_eq!(normalize_img_root("/dev/zvol/dev/zvol/a//"), "/a");
    assert_eq!(normalize_img_root("tank"), "tank");
    assert_eq!(normalize_img_root("/dev/zvol"), "");
    let once = normalize_img_root("/dev/zvol/x/");
    assert_eq!(normalize_img_root(&once), once);
}

#[test]
fn clone_image_path() {
    assert_eq!(vm_img_path(&vm(12, "/tank/qemu-centos")), "/tank/clone_12");
    assert_eq!(vm_img_path(&vm(-3, "/tank/qemu-centos")), "/tank/clone_-3");
}
