use ttcore::engine::{
    cgroup_admin_procs_path, cgroup_dir, cgroup_procs_path, cgroup_root_procs_path, create_image_cmd,
    engine_of, gen_disk_info, kill_step, mnt_point_action, qemu_args, Engine, KillStep, MntAction, remove_image_cmd, tap_name, DEFAULT_VM_UUID,
};
use ttcore::env::Vm;
use ttcore::error::CoreError;
use ttcore::table::Table;
use ttcore::types::{Ipv4, VmKind};

fn vm(id: i32) -> Vm {
    Vm {
        image_path: "/dev/zvol/tank/qemu-centos".to_string(),
        kind: VmKind::Qemu,
        cpu_num: 4,
        memory_size: 2048,
        disk_size: 40,
        id,
        ip: Ipv4::default(),
        port_map: Table::new(),
        during_stop: false,
        image_cached: false,
        rand_uuid: false,
    }
}

#[test]
fn tap_and_disk() {
    assert_eq!(tap_name(7), "TAP-7");
    let (disk, drive) = gen_disk_info(&vm(7));
    assert_eq!(disk, "file=/dev/zvol/tank/clone_7,if=none,format=raw,cache=none,id=DISK_7");
    assert_eq!(drive, "virtio-blk-pci,drive=DISK_7");
}

#[test]
fn qemu_command_line() {
    let args = qemu_args(&vm(300), "intel-iommu", DEFAULT_VM_UUID);
    assert_eq!(args.len(), 24);
    assert_eq!(args[4], "intel-iommu");
    assert_eq!(args[8], "4");
    assert_eq!(args[10], "tap,ifname=TAP-300,script=no,downscript=no,id=NET_300");
    assert_eq!(args[12], format!("virtio-net-pci,mac=52:54:00:11:{:02x}:{:02x},netdev=NET_300", 300 / 256, 300 % 256));
    assert_eq!(args[12], "virtio-net-pci,mac=52:54:00:11:01:2c,netdev=NET_300");
    assert_eq!(args[14], "file=/dev/zvol/tank/clone_300,if=none,format=raw,cache=none,id=DISK_300");
    assert_eq!(args[20], ":300");
    assert_eq!(args[21], "-uuid");
    assert_eq!(args[22], DEFAULT_VM_UUID);
    assert_eq!(args[23], "-daemonize");
    let small = qemu_args(&vm(5), "amd-iommu", "u");
    assert_eq!(small[12], "virtio-net-pci,mac=52:54:00:11:00:05,netdev=NET_5");
}

#[test]
fn zfs_commands() {
    assert_eq!(
        create_image_cmd(&vm(9), "tank").unwrap(),
        "zfs clone -o volmode=dev tank/qemu-centos@base tank/clone_9"
    );
    let mut root = vm(9);
    root.image_path = "/".to_string();
    assert_eq!(create_image_cmd(&root, "tank"), None);
    assert_eq!(remove_image_cmd(&vm(9), "tank"), "zfs destory tank/clone_/9");
}

#[test]
fn cgroup_paths() {
    assert_eq!(cgroup_dir(3), "/tmp/.ttcgroup/3");
    assert_eq!(cgroup_procs_path(3), "/tmp/.ttcgroup/3/cgroup.procs");
    assert_eq!(cgroup_admin_procs_path(), "/tmp/.ttcgroup/ttadmin/cgroup.procs");
    assert_eq!(cgroup_root_procs_path(), "/tmp/.ttcgroup/cgroup.procs");
}

#[test]
fn only_qemu_runs() {
    assert_eq!(engine_of(VmKind::Qemu), Ok(Engine::Qemu));
    assert_eq!(engine_of(VmKind::Docker), Err(CoreError::UnsupportedVmKind));
    assert_eq!(engine_of(VmKind::FireCracker), Err(CoreError::UnsupportedVmKind));
}

#[test]
fn kill_step_reads_process_ids() {
    assert_eq!(kill_step("1234", 7), Some(KillStep::Kill(1234)));
    assert_eq!(kill_step("7", 7), Some(KillStep::ResetAdmin));
    assert_eq!(kill_step("+42", 7), Some(KillStep::Kill(42)));
    assert_eq!(kill_step("4294967295", 7), Some(KillStep::Kill(u32::MAX)));
    assert_eq!(kill_step("4294967296", 7), None);
    assert_eq!(kill_step("", 7), None);
    assert_eq!(kill_step("12 ", 7), None);
    assert_eq!(kill_step("-1", 7), None);
}

#[test]
fn mnt_point_action_decides() {
    assert_eq!(mnt_point_action(false, None), MntAction::Refuse);
    assert_eq!(mnt_point_action(true, None), MntAction::Create);
    assert_eq!(mnt_point_action(true, Some(0)), MntAction::Reuse);
    assert_eq!(mnt_point_action(true, Some(5)), MntAction::Refuse);
}
