use ttcore::env::{Env, Resource, Vm, MAX_LIFE_TIME};
use ttcore::error::CoreError;
use ttcore::table::Table;
use ttcore::types::{Ipv4, VmKind};

fn vm(id: i32, cpu: i32, mem: i32, disk: i32, ports: &[(u16, u16)]) -> Vm {
    let mut port_map = Table::new();
    for (vm_port, pub_port) in ports {
        port_map.insert(*vm_port, *pub_port);
    }
    Vm {
        image_path: format!("/images/qemu-centos-{}", id),
        kind: VmKind::Qemu,
        cpu_num: cpu,
        memory_size: mem,
        disk_size: disk,
        id,
        ip: Ipv4::new(format!("10.0.0.{}", id)),
        port_map,
        during_stop: false,
        image_cached: false,
        rand_uuid: false,
    }
}

fn env_with(vms: Vec<Vm>, stopped: bool) -> Env {
    let mut table = Table::new();
    for v in vms {
        table.insert(v.id, v);
    }
    Env {
        id: "env-1".to_string(),
        start_timestamp: 1000,
        end_timestamp: 2000,
        is_stopped: stopped,
        outgoing_denied: false,
        last_mgmt_ts: 0,
        vm: table,
        cli_belong_to: None,
    }
}

fn pool(cpu_total: i32, cpu_used: i32) -> Resource {
    let mut r = Resource::new(cpu_total, 100_000, 100_000);
    r.cpu_used = cpu_used;
    r
}

#[test]
fn resource_new_has_nothing_in_use() {
    let r = Resource::new(8, 1024, 4096);
    assert_eq!((r.vm_active, r.cpu_total, r.cpu_used), (0, 8, 0));
    assert_eq!((r.memory_total, r.memory_used), (1024, 0));
    assert_eq!((r.disk_total, r.disk_used), (4096, 0));
    let d = Resource::default();
    assert_eq!((d.cpu_total, d.memory_total, d.disk_total), (0, 0, 0));
}

#[test]
fn check_resource_charges_the_difference() {
    let env = env_with(vec![vm(1, 2, 1024, 10, &[]), vm(2, 2, 1024, 10, &[])], true);
    let mut res = pool(10, 4);
    assert_eq!(env.check_resource_and_set(&mut res, (4, 1024, 10)), Ok(()));
    // used + new per-machine cpu - old total / machines = 4 + 4 - 2
    assert_eq!(res.cpu_used, 6);
    assert_eq!(res.memory_used, 0 + 1024 - 1024);
    assert_eq!(res.disk_used, 0 + 10 - 10);
}

#[test]
fn check_resource_admits_smaller_requests() {
    let env = env_with(vec![vm(1, 2, 1024, 10, &[]), vm(2, 2, 1024, 10, &[])], true);
    let start = pool(10, 4);
    let mut res = start;
    assert_eq!(env.check_resource_and_set(&mut res, (5, 2048, 20)), Ok(()));
    for h2 in [(5, 2048, 20), (0, 0, 0), (3, 2048, 1), (5, 1, 20)] {
        let mut res2 = start;
        assert_eq!(env.check_resource_and_set(&mut res2, h2), Ok(()));
    }
}

#[test]
fn check_resource_refuses_busy_cpu() {
    let env = env_with(vec![vm(1, 2, 1024, 10, &[]), vm(2, 2, 1024, 10, &[])], true);
    let mut res = pool(10, 4);
    assert_eq!(
        env.check_resource_and_set(&mut res, (6, 1024, 10)),
        Err(CoreError::CpuBusy { total: 10, used: 4, need: 12 })
    );
    assert_eq!(res.cpu_used, 4);
}

#[test]
fn check_resource_refuses_busy_memory_and_disk() {
    let env = env_with(vec![vm(1, 1, 10, 10, &[])], true);
    let mut res = Resource::new(100, 20, 20);
    assert_eq!(
        env.check_resource_and_set(&mut res, (1, 31, 10)),
        Err(CoreError::MemoryBusy { total: 20, used: 0, need: 31 })
    );
    assert_eq!(
        env.check_resource_and_set(&mut res, (1, 10, 31)),
        Err(CoreError::DiskBusy { total: 20, used: 0, need: 31 })
    );
    assert_eq!(env.check_resource_and_set(&mut res, (1, 30, 30)), Ok(()));
    assert_eq!((res.memory_used, res.disk_used), (20, 20));
}

#[test]
fn check_resource_overflow_is_internal() {
    let env = env_with(vec![vm(1, 1, 1, 1, &[]), vm(2, 1, 1, 1, &[])], true);
    let mut res = pool(10, 0);
    assert_eq!(env.check_resource_and_set(&mut res, (i32::MAX, 1, 1)), Err(CoreError::Internal));
}

#[test]
fn update_hardware_needs_stopped_env() {
    let mut env = env_with(vec![vm(1, 2, 1024, 10, &[])], false);
    let mut res = pool(10, 0);
    let mut ports: Table<u16, ()> = Table::new();
    assert_eq!(
        env.update_hardware(&mut res, &mut ports, Some(4), None, None, &[], None),
        Err(CoreError::EnvNotStopped)
    );
    assert_eq!(env.vm.value_at(0).cpu_num, 2);
}

#[test]
fn update_hardware_sets_every_machine() {
    let mut env = env_with(vec![vm(1, 2, 1024, 10, &[]), vm(2, 2, 1024, 10, &[])], true);
    let mut res = pool(10, 4);
    let mut ports: Table<u16, ()> = Table::new();
    assert_eq!(env.update_hardware(&mut res, &mut ports, Some(3), None, Some(20), &[], None), Ok(()));
    for i in 0..env.vm.len() {
        let v = env.vm.value_at(i);
        assert_eq!((v.cpu_num, v.memory_size, v.disk_size), (3, 1024, 20));
    }
    assert_eq!(res.cpu_used, 4 + 3 - 2);
}

#[test]
fn update_hardware_on_empty_env_does_nothing() {
    let mut env = env_with(vec![], true);
    let mut res = pool(10, 4);
    let mut ports: Table<u16, ()> = Table::new();
    ports.insert(8080, ());
    assert_eq!(env.update_hardware(&mut res, &mut ports, Some(3), None, None, &[22], None), Ok(()));
    assert_eq!(res.cpu_used, 4);
    assert_eq!(ports.len(), 1);
}

#[test]
fn update_hardware_releases_ports() {
    let mut env = env_with(vec![vm(1, 2, 1024, 10, &[(22, 8001), (80, 8002)]), vm(2, 2, 1024, 10, &[(22, 8003)])], true);
    let mut res = pool(10, 4);
    let mut ports: Table<u16, ()> = Table::new();
    for p in [8000u16, 8001, 8002, 8003, 8004] {
        ports.insert(p, ());
    }
    assert_eq!(env.update_hardware(&mut res, &mut ports, None, None, None, &[22], None), Ok(()));
    assert_eq!(ports.len(), 2);
    assert_eq!(*ports.key_at(0), 8000);
    assert_eq!(*ports.key_at(1), 8004);
    assert_eq!(res.cpu_used, 4);
}

#[test]
fn update_hardware_without_ports_keeps_ports() {
    let mut env = env_with(vec![vm(1, 2, 1024, 10, &[(22, 8001)])], true);
    let mut res = pool(10, 4);
    let mut ports: Table<u16, ()> = Table::new();
    ports.insert(8001, ());
    assert_eq!(env.update_hardware(&mut res, &mut ports, None, None, None, &[], None), Ok(()));
    assert_eq!(ports.len(), 1);
}

#[test]
fn update_life_limits_ordinary_clients() {
    let mut env = env_with(vec![], true);
    assert_eq!(env.update_life(MAX_LIFE_TIME + 1, false), Err(CoreError::LifeTimeTooLong));
    assert_eq!(env.end_timestamp, 2000);
    assert_eq!(env.update_life(MAX_LIFE_TIME + 1, true), Ok(()));
    assert_eq!(env.end_timestamp, 1000 + 6 * 3600 + 1);
    assert_eq!(env.update_life(60, false), Ok(()));
    assert_eq!(env.end_timestamp, 1060);
}

#[test]
fn as_meta_describes_env() {
    let env = env_with(vec![vm(1, 2, 1024, 10, &[]), vm(2, 2, 1024, 10, &[])], true);
    let m = env.as_meta();
    assert_eq!(m.id, "env-1");
    assert_eq!((m.start_timestamp, m.end_timestamp, m.vm_cnt, m.is_stopped), (1000, 2000, 2, true));
}

#[test]
fn as_info_orders_machines_by_id() {
    let mut v3 = vm(3, 1, 512, 5, &[(22, 9000)]);
    v3.image_path = "/".to_string();
    let env = env_with(vec![v3, vm(1, 2, 1024, 10, &[]), vm(2, 4, 2048, 20, &[])], false);
    let info = env.as_info();
    assert_eq!(info.id, "env-1");
    assert_eq!(info.vm.len(), 3);
    assert_eq!(*info.vm.key_at(0), 1);
    assert_eq!(*info.vm.key_at(1), 2);
    assert_eq!(*info.vm.key_at(2), 3);
    assert_eq!(info.vm.value_at(0).os, "qemu-centos-1");
    assert_eq!(info.vm.value_at(1).cpu_num, 4);
    assert_eq!(info.vm.value_at(2).os, "Unknown");
    assert_eq!(*info.vm.value_at(2).port_map.get(&22).unwrap(), 9000);
    assert_eq!(info.vm.value_at(2).ip.as_str(), "10.0.0.3");
}

#[test]
fn start_all_then_stop_all_restores_pool() {
    let mut env = env_with(vec![vm(1, 2, 1024, 10, &[]), vm(2, 3, 512, 20, &[])], true);
    let mut res = pool(10, 1);
    let before = res;
    assert_eq!(env.start_all(&mut res), Ok(()));
    assert_eq!((res.vm_active, res.cpu_used, res.memory_used, res.disk_used), (2, 6, 1536, 30));
    assert!(!env.vm.value_at(0).during_stop);
    assert_eq!(env.stop_all(&mut res), Ok(()));
    assert_eq!(
        (res.vm_active, res.cpu_used, res.memory_used, res.disk_used),
        (before.vm_active, before.cpu_used, before.memory_used, before.disk_used)
    );
    assert!(env.vm.value_at(1).during_stop);
}

#[test]
fn stop_all_then_start_all_restores_pool() {
    let mut env = env_with(vec![vm(1, 2, 1024, 10, &[]), vm(2, 3, 512, 20, &[])], false);
    let mut res = pool(10, 5);
    res.vm_active = 2;
    res.memory_used = 1536;
    res.disk_used = 30;
    let before = res;
    assert_eq!(env.stop_all(&mut res), Ok(()));
    assert_eq!((res.vm_active, res.cpu_used, res.memory_used, res.disk_used), (0, 0, 0, 0));
    assert_eq!(env.start_all(&mut res), Ok(()));
    assert_eq!(
        (res.vm_active, res.cpu_used, res.memory_used, res.disk_used),
        (before.vm_active, before.cpu_used, before.memory_used, before.disk_used)
    );
    assert!(!env.vm.value_at(0).during_stop);
    assert!(!env.vm.value_at(1).during_stop);
}

#[test]
fn vm_get_id() {
    assert_eq!(vm(7, 1, 1, 1, &[]).get_id(), 7);
}

#[test]
fn fit_checks() {
    let env = env_with(vec![vm(1, 2, 1024, 10, &[]), vm(2, 2, 1024, 10, &[])], true);
    let res = pool(10, 4);
    assert!(env.start_fits_check(&res));
    assert!(env.stop_fits_check(&res));
    let full = pool(10, i32::MAX - 3);
    assert!(!env.start_fits_check(&full));
    let low = pool(10, i32::MIN + 1);
    assert!(!env.stop_fits_check(&low));
    assert!(env.hardware_change_fits_check(&res, Some(4), None, None));
    assert!(env.hardware_change_fits_check(&res, None, None, None));
    let big = env_with(vec![vm(1, i32::MAX, 1, 1, &[]), vm(2, 1, 1, 1, &[])], true);
    assert!(!big.hardware_change_fits_check(&res, Some(1), None, None));
    let edge = pool(i32::MAX, i32::MAX - 1);
    assert!(env.hardware_change_fits_check(&edge, Some(3), None, None));
    assert!(!env.hardware_change_fits_check(&edge, Some(2), None, None));
}
