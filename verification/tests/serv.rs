use ttcore::env::{Env, Resource, Vm, MIN_START_STOP_ITV};
use ttcore::error::CoreError;
use ttcore::serv::{mark_cached, CfgDB, Serv};
use ttcore::table::Table;
use ttcore::types::{Ipv4, VmKind};

fn vm(id: i32, cpu: i32, mem: i32, disk: i32) -> Vm {
    Vm {
        image_path: format!("/images/qemu-{}", id),
        kind: VmKind::Qemu,
        cpu_num: cpu,
        memory_size: mem,
        disk_size: disk,
        id,
        ip: Ipv4::new(format!("10.0.0.{}", id)),
        port_map: Table::new(),
        during_stop: true,
        image_cached: false,
        rand_uuid: false,
    }
}

fn env(id: &str, end: u64, vms: Vec<Vm>) -> Env {
    let mut table = Table::new();
    for v in vms {
        table.insert(v.id, v);
    }
    Env {
        id: id.to_string(),
        start_timestamp: 100,
        end_timestamp: end,
        is_stopped: true,
        outgoing_denied: false,
        last_mgmt_ts: 0,
        vm: table,
        cli_belong_to: None,
    }
}

fn register(s: &mut Serv, cli: &str, mut e: Env) -> Result<(), CoreError> {
    s.register_env_prepare(cli, &mut e)?;
    s.register_env_commit(cli.to_string(), e);
    Ok(())
}

#[test]
fn new_server_is_empty() {
    let s = Serv::new("/tmp/cfg");
    assert!(s.get_env_meta_all().is_empty());
    let r = s.get_resource();
    assert_eq!((r.cpu_total, r.cpu_used, r.vm_active), (0, 0, 0));
    assert_eq!(s.cfg_db.dir(), "/tmp/cfg");
}

#[test]
fn set_resource_resets_usage() {
    let mut s = Serv::new("/tmp/cfg");
    let mut r = Resource::new(8, 4096, 100);
    r.cpu_used = 3;
    r.vm_active = 2;
    s.set_resource(r);
    let got = s.get_resource();
    assert_eq!((got.cpu_total, got.memory_total, got.disk_total), (8, 4096, 100));
    assert_eq!((got.cpu_used, got.vm_active), (0, 0));
}

#[test]
fn add_client_twice_is_refused() {
    let mut s = Serv::new("/tmp/cfg");
    assert_eq!(s.add_client("alice".to_string()), Ok(()));
    assert_eq!(s.add_client("alice".to_string()), Err(CoreError::ClientAlreadyExists));
    s.del_client("alice");
    assert_eq!(s.add_client("alice".to_string()), Ok(()));
}

#[test]
fn register_env_then_lookup() {
    let mut s = Serv::new("/tmp/cfg");
    assert_eq!(register(&mut s, "alice", env("e1", 500, vec![vm(1, 1, 1, 1)])), Ok(()));
    let e = s.env("alice", "e1").unwrap();
    assert_eq!(e.cli_belong_to.as_deref(), Some("alice"));
    assert!(e.vm.value_at(0).image_cached);
    assert_eq!(register(&mut s, "alice", env("e1", 500, vec![])), Err(CoreError::EnvAlreadyExists));
    assert!(s.env("alice", "e2").is_none());
    assert!(s.env("bob", "e1").is_none());
}

#[test]
fn prepare_creates_client_even_when_refused() {
    let mut s = Serv::new("/tmp/cfg");
    let mut e = env("e1", 500, vec![vm(1, 1, 1, 1)]);
    assert_eq!(s.register_env_prepare("bob", &mut e), Ok(()));
    assert_eq!(s.add_client("bob".to_string()), Err(CoreError::ClientAlreadyExists));
}

#[test]
fn del_env_forgets_env() {
    let mut s = Serv::new("/tmp/cfg");
    register(&mut s, "alice", env("e1", 500, vec![])).unwrap();
    register(&mut s, "alice", env("e2", 500, vec![])).unwrap();
    s.del_env("alice", "e1");
    assert!(s.env("alice", "e1").is_none());
    assert!(s.env("alice", "e2").is_some());
    s.del_env("nobody", "e2");
    assert!(s.env("alice", "e2").is_some());
}

#[test]
fn update_env_del_vm_errors_and_removal() {
    let mut s = Serv::new("/tmp/cfg");
    assert_eq!(s.update_env_del_vm("alice", "e1", &[1]), Err(CoreError::ClientNotExists));
    register(&mut s, "alice", env("e1", 500, vec![vm(1, 1, 1, 1), vm(2, 1, 1, 1), vm(3, 1, 1, 1)])).unwrap();
    assert_eq!(s.update_env_del_vm("alice", "e9", &[1]), Err(CoreError::EnvNotExists));
    assert_eq!(s.update_env_del_vm("alice", "e1", &[1, 3, 42]), Ok(()));
    let e = s.env("alice", "e1").unwrap();
    assert_eq!(e.vm.len(), 1);
    assert_eq!(*e.vm.key_at(0), 2);
}

#[test]
fn update_env_life_searches_clients_by_env_id() {
    let mut s = Serv::new("/tmp/cfg");
    register(&mut s, "alice", env("e1", 500, vec![])).unwrap();
    assert_eq!(s.update_env_life("alice", "e1", 60, false), Err(CoreError::ClientNotExists));
    register(&mut s, "e1", env("e1", 500, vec![])).unwrap();
    assert_eq!(s.update_env_life("alice", "e1", 60, false), Ok(()));
    assert_eq!(s.env("e1", "e1").unwrap().end_timestamp, 160);
    assert_eq!(s.env("alice", "e1").unwrap().end_timestamp, 500);
    assert_eq!(s.update_env_life("alice", "e1", 6 * 3600 + 1, false), Err(CoreError::LifeTimeTooLong));
    register(&mut s, "e2", env("other", 500, vec![])).unwrap();
    assert_eq!(s.update_env_life("alice", "e2", 60, false), Err(CoreError::EnvNotExists));
}

#[test]
fn start_then_stop_restores_pool() {
    let mut s = Serv::new("/tmp/cfg");
    s.set_resource(Resource::new(16, 8192, 1000));
    register(&mut s, "e1", env("e1", 500, vec![vm(1, 2, 1024, 10), vm(2, 4, 2048, 20)])).unwrap();
    assert_eq!(s.start_env_at("ignored", "e1", 1000), Ok(()));
    let r = s.get_resource();
    assert_eq!((r.vm_active, r.cpu_used, r.memory_used, r.disk_used), (2, 6, 3072, 30));
    let e = s.env("e1", "e1").unwrap();
    assert!(!e.is_stopped);
    assert_eq!(e.last_mgmt_ts, 1000);
    assert!(!e.vm.value_at(0).during_stop);
    assert_eq!(
        s.stop_env_at("e1", "e1", 1000 + MIN_START_STOP_ITV - 1),
        Err(CoreError::TooSoon { wait_secs: 20 })
    );
    assert_eq!(s.stop_env_at("e1", "e1", 1000 + MIN_START_STOP_ITV), Ok(()));
    let r = s.get_resource();
    assert_eq!((r.vm_active, r.cpu_used, r.memory_used, r.disk_used), (0, 0, 0, 0));
    let e = s.env("e1", "e1").unwrap();
    assert!(e.is_stopped);
    assert!(e.vm.value_at(1).during_stop);
}

#[test]
fn start_env_too_soon_and_missing() {
    let mut s = Serv::new("/tmp/cfg");
    assert_eq!(s.start_env_at("x", "nothing", 50), Ok(()));
    let mut e = env("e1", 500, vec![vm(1, 1, 1, 1)]);
    e.last_mgmt_ts = 40;
    register(&mut s, "e1", e).unwrap();
    assert_eq!(s.start_env_at("x", "e1", 50), Err(CoreError::TooSoon { wait_secs: 20 }));
    assert_eq!(s.start_env_at("x", "e1", 10), Err(CoreError::TooSoon { wait_secs: 20 }));
    assert_eq!(s.get_resource().vm_active, 0);
    assert_eq!(s.start_env_at("x", "e1", 60), Ok(()));
    assert_eq!(s.get_resource().vm_active, 1);
}

#[test]
fn start_env_with_clock() {
    let mut s = Serv::new("/tmp/cfg");
    register(&mut s, "e1", env("e1", 500, vec![vm(1, 1, 1, 1)])).unwrap();
    assert_eq!(s.start_env("x", "e1"), Ok(()));
    assert!(s.env("e1", "e1").unwrap().last_mgmt_ts > 1_600_000_000);
    assert_eq!(s.stop_env("e1", "e1"), Err(CoreError::TooSoon { wait_secs: 20 }));
    assert_eq!(s.stop_env("nobody", "e1"), Ok(()));
}

#[test]
fn clean_expired_env_keeps_living() {
    let mut s = Serv::new("/tmp/cfg");
    register(&mut s, "alice", env("old", 100, vec![])).unwrap();
    register(&mut s, "alice", env("new", 300, vec![])).unwrap();
    register(&mut s, "bob", env("edge", 200, vec![])).unwrap();
    s.clean_expired_env_at(200);
    assert!(s.env("alice", "old").is_none());
    assert!(s.env("alice", "new").is_some());
    assert!(s.env("bob", "edge").is_some());
    s.clean_expired_env();
    assert!(s.get_env_meta_all().is_empty());
}

#[test]
fn env_metas_and_details() {
    let mut s = Serv::new("/tmp/cfg");
    register(&mut s, "alice", env("a1", 100, vec![vm(1, 1, 1, 1)])).unwrap();
    register(&mut s, "alice", env("a2", 200, vec![])).unwrap();
    register(&mut s, "bob", env("b1", 300, vec![vm(2, 1, 1, 1), vm(3, 1, 1, 1)])).unwrap();
    let all = s.get_env_meta_all();
    let ids: Vec<&str> = all.iter().map(|m| m.id.as_str()).collect();
    assert_eq!(ids, vec!["a1", "a2", "b1"]);
    assert_eq!(all[2].vm_cnt, 2);
    let bob = s.get_env_meta("bob");
    assert_eq!(bob.len(), 1);
    assert_eq!(bob[0].end_timestamp, 300);
    assert!(s.get_env_meta("carol").is_empty());
    let details = s.get_env_details("alice", vec!["a2".to_string(), "zz".to_string()]);
    assert_eq!(details.len(), 1);
    assert_eq!(details[0].id, "a2");
    assert!(s.get_env_details("carol", vec!["a2".to_string()]).is_empty());
}

#[test]
fn cfg_location_names() {
    let db = CfgDB::new("/var/cfg");
    let e = env("e1", 0, vec![]);
    let l = db.location("alice", &e);
    assert_eq!(l.root, "/var/cfg");
    assert_eq!(l.dir_name, "YWxpY2U=");
    assert_eq!(l.file_name, "e1.json");
}

#[test]
fn mark_cached_flags_every_vm() {
    let mut e = env("e1", 0, vec![vm(1, 1, 1, 1), vm(2, 1, 1, 1)]);
    mark_cached(&mut e, true);
    assert!(e.vm.value_at(0).image_cached && e.vm.value_at(1).image_cached);
    mark_cached(&mut e, false);
    assert!(!e.vm.value_at(0).image_cached && !e.vm.value_at(1).image_cached);
}

#[test]
fn update_env_hardware_through_server() {
    let mut s = Serv::new("/tmp/cfg");
    s.set_resource(Resource::new(10, 10_000, 10_000));
    assert_eq!(
        s.update_env_hardware("alice", "e1", Some(2), None, None, &[], None),
        Err(CoreError::ClientNotExists)
    );
    register(&mut s, "alice", env("e1", 500, vec![vm(1, 1, 100, 10), vm(2, 1, 100, 10)])).unwrap();
    assert_eq!(
        s.update_env_hardware("alice", "e2", Some(2), None, None, &[], None),
        Err(CoreError::EnvNotExists)
    );
    assert_eq!(s.update_env_hardware("alice", "e1", Some(3), None, None, &[], None), Ok(()));
    let e = s.env("alice", "e1").unwrap();
    assert_eq!(e.vm.value_at(1).cpu_num, 3);
    assert_eq!(s.get_resource().cpu_used, 0 + 3 - 1);
    assert_eq!(
        s.update_env_hardware("alice", "e1", Some(20), None, None, &[], None),
        Err(CoreError::CpuBusy { total: 10, used: 2, need: 40 })
    );
}
