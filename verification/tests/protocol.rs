use ttcore::error::CoreError;
use ttcore::protocol::{
    add_service_ports, Request, RequestAddressEnv, Response, ResultStatus, DEFAULT_REQ_ID, DUP_MAX,
    OPS_ID_LEN,
};
use ttcore::types::VmCfgProxy;

fn proxy(ports: Vec<u16>) -> VmCfgProxy {
    VmCfgProxy {
        image_tag: "centos".to_string(),
        port_list: ports,
        cpu_num: Some(2),
        memoy_size: None,
        disk_size: None,
        rand_uuid: false,
    }
}

#[test]
fn constants() {
    assert_eq!(OPS_ID_LEN, 4);
    assert_eq!(DEFAULT_REQ_ID, u64::MAX);
    assert_eq!(DUP_MAX, 500);
}

#[test]
fn request_new_keeps_fields() {
    let r = Request::new(7, "alice".to_string(), 42u8);
    assert_eq!((r.uuid, r.cli_id.as_str(), r.msg), (7, "alice", 42));
}

#[test]
fn service_ports_are_added_sorted_once() {
    let mut ports = vec![8080, 22, 443, 8080];
    add_service_ports(&mut ports);
    assert_eq!(ports, vec![22, 443, 8080, 38888]);
    let mut again = ports.clone();
    add_service_ports(&mut again);
    assert_eq!(again, ports);
    let mut empty = vec![];
    add_service_ports(&mut empty);
    assert_eq!(empty, vec![22, 38888]);
}

#[test]
fn set_ssh_port_on_common_list() {
    let mut req = RequestAddressEnv::default();
    req.port_set = vec![9000, 80];
    req.set_ssh_port();
    assert_eq!(req.port_set, vec![22, 80, 9000, 38888]);
    assert!(req.vm_cfg.is_none());
}

#[test]
fn set_ssh_port_on_each_machine() {
    let mut req = RequestAddressEnv::default();
    req.port_set = vec![9000];
    req.vm_cfg = Some(vec![proxy(vec![38888, 1]), proxy(vec![])]);
    req.set_ssh_port();
    let cfg = req.vm_cfg.as_ref().unwrap();
    assert_eq!(cfg[0].port_list, vec![1, 22, 38888]);
    assert_eq!(cfg[1].port_list, vec![22, 38888]);
    assert_eq!(cfg[0].cpu_num, Some(2));
    assert_eq!(req.port_set, vec![9000]);
}

#[test]
fn set_os_lower_lowercases() {
    let mut req = RequestAddressEnv::default();
    req.os_prefix = vec!["CentOS".to_string(), "QEMU-Ubuntu".to_string()];
    req.set_os_lower();
    assert_eq!(req.os_prefix, vec!["centos".to_string(), "qemu-ubuntu".to_string()]);
}

#[test]
fn check_dup_limits() {
    let mut req = RequestAddressEnv::default();
    assert_eq!(req.check_dup(), Ok(0));
    req.dup_each = Some(500);
    assert_eq!(req.check_dup(), Ok(500));
    req.dup_each = Some(501);
    assert_eq!(req.check_dup(), Err(CoreError::DupTooLarge { dup: 501, max: 500 }));
}

#[test]
fn status_and_response_text() {
    assert_eq!(ResultStatus::Fail.to_display_string(), "Fail");
    assert_eq!(ResultStatus::Success.to_display_string(), "Success");
    assert!(ResultStatus::Fail < ResultStatus::Success);
    let r = Response { uuid: 1, status: ResultStatus::Success, msg: b"ok".to_vec() };
    assert_eq!(r.to_display_string(), "status: Success , msg: ok");
    let bad = Response { uuid: 1, status: ResultStatus::Fail, msg: vec![0x66, 0xff, 0x6f] };
    assert_eq!(bad.to_display_string(), "status: Fail , msg: f\u{FFFD}o");
}
