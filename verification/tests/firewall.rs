use ttcore::env::Vm;
use ttcore::firewall::{allow_outgoing_rule, clean_rule_text, deny_outgoing_rule, init_rules, join_strings, set_rule_text};
use ttcore::table::Table;
use ttcore::types::{Ipv4, VmKind};

fn vm(id: i32, ports: &[(u16, u16)]) -> Vm {
    let mut port_map = Table::new();
    for (a, b) in ports {
        port_map.insert(*a, *b);
    }
    Vm {
        image_path: String::new(),
        kind: VmKind::Qemu,
        cpu_num: 1,
        memory_size: 1,
        disk_size: 1,
        id,
        ip: Ipv4::new(format!("10.0.0.{}", id)),
        port_map,
        during_stop: false,
        image_cached: false,
        rand_uuid: false,
    }
}

#[test]
fn join_with_separator() {
    assert_eq!(join_strings(&vec![], ","), "");
    assert_eq!(join_strings(&vec!["a".to_string()], ","), "a");
    assert_eq!(join_strings(&vec!["a".to_string(), "b".to_string(), "c".to_string()], ", "), "a, b, c");
}

#[test]
fn outgoing_rules() {
    let a = vm(1, &[]);
    let b = vm(2, &[]);
    assert_eq!(allow_outgoing_rule(&[]), None);
    assert_eq!(
        allow_outgoing_rule(&[&a, &b]).unwrap(),
        " delete element ip tt-core BLACK_LIST {10.0.0.1,10.0.0.2}; "
    );
    assert_eq!(deny_outgoing_rule(&[]), None);
    assert_eq!(deny_outgoing_rule(&[&a]).unwrap(), "add element ip tt-core BLACK_LIST { 10.0.0.1 }");
}

#[test]
fn port_rules() {
    let a = vm(1, &[(22, 8001), (80, 8002)]);
    assert_eq!(set_rule_text(&vm(3, &[])), None);
    assert_eq!(
        set_rule_text(&a).unwrap(),
        "\n            add element ip tt-core PORT_TO_IPV4 { 8001:10.0.0.1,8002:10.0.0.1 };\n            add element ip tt-core PORT_TO_PORT { 8001:22,8002:80 };\n        "
    );
    let b = vm(2, &[(22, 8003), (23, 8001)]);
    assert_eq!(clean_rule_text(&[&vm(3, &[])]), None);
    assert_eq!(
        clean_rule_text(&[&a, &b]).unwrap(),
        "\n            delete element ip tt-core PORT_TO_IPV4 {8001,8002,8003};\n            delete element ip tt-core PORT_TO_PORT {8001,8002,8003};\n            "
    );
}

#[test]
fn init_rule_ends_with_server_ip() {
    let r = init_rules("1.2.3.4");
    assert!(r.starts_with("\n            add table ip tt-core;"));
    assert!(r.ends_with("snat to 1.2.3.4;"));
}
