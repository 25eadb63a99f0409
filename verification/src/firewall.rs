//! The text of the firewall (nftables) rules that forward ports to the
//! machines and keep machines from reaching the outside.
use vstd::prelude::*;
use crate::env::Vm;
use crate::text::{decimal, push_str, u64_to_decimal};
use crate::types::PubPort;

verus! {

/// The family of the rule table.
pub const TABLE_PROTO: &'static str = "ip";

/// The name of the rule table.
pub const TABLE_NAME: &'static str = "tt-core";

/// The rules that set up the table, up to the public address of the server.
pub const NAT_INIT_HEAD: &'static str = "\n            add table ip tt-core;\n            delete table ip tt-core;\n            add table ip tt-core;\n            add set ip tt-core BLACK_LIST {type ipv4_addr;};\n            add chain ip tt-core FWD_CHAIN {type filter hook forward priority 0; policy accept;};\n            add rule ip tt-core FWD_CHAIN ct state established,related accept;\n            add rule ip tt-core FWD_CHAIN ip saddr @BLACK_LIST drop;\n            add map ip tt-core PORT_TO_PORT {type inet_service: inet_service;};\n            add map ip tt-core PORT_TO_IPV4 { type inet_service: ipv4_addr;};\n            add chain ip tt-core DNAT_CHAIN {type nat hook prerouting priority -100;};\n            add chain ip tt-core SNAT_CHAIN { type nat hook postrouting priority 100 ;};\n            add rule ip tt-core DNAT_CHAIN dnat tcp dport map @PORT_TO_IPV4: tcp dport map @PORT_TO_PORT;\n            add rule ip tt-core DNAT_CHAIN dnat udp dport map @PORT_TO_TPV4: udp dport map @PORT_TO_PORT;\n            add rule ip tt-core SNAT_CHAIN ip saddr 10.0.0.0/8 ip daddr != 10.0.0.0/8 snat to ";

/// Texts joined with a separator.
pub open spec fn joined(items: Seq<Seq<char>>, sep: Seq<char>) -> Seq<char>
    decreases items.len(),
{
    if items.len() == 0 {
        Seq::empty()
    } else if items.len() == 1 {
        items[0]
    } else {
        joined(items.drop_last(), sep) + sep + items.last()
    }
}

/// Joins texts with a separator.
pub fn join_strings(items: &Vec<String>, sep: &str) -> (r: String)
    ensures
        r@ == joined(items@.map_values(|s: String| s@), sep@),
{
    let ghost v = items@.map_values(|s: String| s@);
    let n = items.len();
    let mut r = String::new();
    let mut i: usize = 0;
    assert(v.take(0) =~= Seq::<Seq<char>>::empty());
    while i < n
        invariant
            n == items@.len(),
            v == items@.map_values(|s: String| s@),
            i <= n,
            r@ == joined(v.take(i as int), sep@),
        decreases n - i,
    {
        if i > 0 {
            push_str(&mut r, sep);
        }
        push_str(&mut r, items[i].as_str());
        assert(v.take(i + 1).drop_last() =~= v.take(i as int));
        assert(v.take(i + 1).last() == items@[i as int]@);
        if i == 0 {
            assert(v.take(1) =~= seq![items@[0]@]);
        }
        i = i + 1;
    }
    assert(v.take(n as int) =~= v);
    r
}

/// The addresses of the machines, one after another.
pub open spec fn ips_of(vms: Seq<&Vm>) -> Seq<Seq<char>> {
    vms.map_values(|vm: &Vm| vm.ip@)
}

/// The addresses of the machines.
fn ip_strings(vm_set: &[&Vm]) -> (r: Vec<String>)
    ensures
        r@.map_values(|s: String| s@) == ips_of(vm_set@),
{
    let n = vm_set.len();
    let mut r: Vec<String> = Vec::new();
    let mut i: usize = 0;
    while i < n
        invariant
            n == vm_set@.len(),
            i <= n,
            r@.len() == i,
            forall|j: int| 0 <= j < i ==> (#[trigger] r@[j])@ == vm_set@[j].ip@,
        decreases n - i,
    {
        r.push(vm_set[i].ip.to_display_string());
        i = i + 1;
    }
    assert(r@.map_values(|s: String| s@) =~= ips_of(vm_set@));
    r
}

/// The rule that lets the machines reach the outside again, if there are any.
pub fn allow_outgoing_rule(vm_set: &[&Vm]) -> (r: Option<String>)
    ensures
        vm_set@.len() == 0 ==> r is None,
        vm_set@.len() > 0 ==> (r matches Some(s) && s@ == " delete element "@ + TABLE_PROTO@ + " "@
            + TABLE_NAME@ + " BLACK_LIST {"@ + joined(ips_of(vm_set@), ","@) + "}; "@),
{
    let ips = ip_strings(vm_set);
    assert(ips@.map_values(|s: String| s@).len() == ips@.len());
    if ips.len() == 0 {
        return None;
    }
    let mut s = " delete element ".to_owned();
    push_str(&mut s, TABLE_PROTO);
    push_str(&mut s, " ");
    push_str(&mut s, TABLE_NAME);
    push_str(&mut s, " BLACK_LIST {");
    let joined_ips = join_strings(&ips, ",");
    push_str(&mut s, joined_ips.as_str());
    push_str(&mut s, "}; ");
    Some(s)
}

/// The rule that keeps the machines from reaching the outside, if there are any.
pub fn deny_outgoing_rule(vm_set: &[&Vm]) -> (r: Option<String>)
    ensures
        vm_set@.len() == 0 ==> r is None,
        vm_set@.len() > 0 ==> (r matches Some(s) && s@ == "add element "@ + TABLE_PROTO@ + " "@
            + TABLE_NAME@ + " BLACK_LIST { "@ + joined(ips_of(vm_set@), ","@) + " }"@),
{
    let ips = ip_strings(vm_set);
    assert(ips@.map_values(|s: String| s@).len() == ips@.len());
    if ips.len() == 0 {
        return None;
    }
    let mut s = "add element ".to_owned();
    push_str(&mut s, TABLE_PROTO);
    push_str(&mut s, " ");
    push_str(&mut s, TABLE_NAME);
    push_str(&mut s, " BLACK_LIST { ");
    let joined_ips = join_strings(&ips, ",");
    push_str(&mut s, joined_ips.as_str());
    push_str(&mut s, " }");
    Some(s)
}

/// The rules that set up the table, with `server_ip` as the address that
/// the machines' traffic to the outside leaves with.
pub fn init_rules(server_ip: &str) -> (r: String)
    ensures
        r@ == NAT_INIT_HEAD@ + server_ip@ + ";"@,
{
    let mut s = NAT_INIT_HEAD.to_owned();
    push_str(&mut s, server_ip);
    push_str(&mut s, ";");
    s
}

/// `pub:ip` for each forwarded port of a machine.
pub open spec fn port_to_ipv4_items(vm: Vm) -> Seq<Seq<char>> {
    vm.port_map@.map_values(|e: (u16, u16)| decimal(e.1 as int) + ":"@ + vm.ip@)
}

/// `pub:port` for each forwarded port of a machine.
pub open spec fn port_to_port_items(vm: Vm) -> Seq<Seq<char>> {
    vm.port_map@.map_values(|e: (u16, u16)| decimal(e.1 as int) + ":"@ + decimal(e.0 as int))
}

/// The rules that forward the public ports of a machine to it, if it has any.
pub fn set_rule_text(vm: &Vm) -> (r: Option<String>)
    ensures
        vm.port_map@.len() == 0 ==> r is None,
        vm.port_map@.len() > 0 ==> (r matches Some(s) && s@ == "\n            add element "@
            + TABLE_PROTO@ + " "@ + TABLE_NAME@ + " PORT_TO_IPV4 { "@ + joined(
            port_to_ipv4_items(*vm),
            ","@,
        ) + " };\n            add element "@ + TABLE_PROTO@ + " "@ + TABLE_NAME@
            + " PORT_TO_PORT { "@ + joined(port_to_port_items(*vm), ","@) + " };\n        "@),
{
    let n = vm.port_map.len();
    if n == 0 {
        return None;
    }
    let mut to_ipv4: Vec<String> = Vec::new();
    let mut to_port: Vec<String> = Vec::new();
    let mut i: usize = 0;
    while i < n
        invariant
            n == vm.port_map@.len(),
            i <= n,
            to_ipv4@.len() == i,
            to_port@.len() == i,
            forall|j: int| 0 <= j < i ==> (#[trigger] to_ipv4@[j])@ == port_to_ipv4_items(*vm)[j],
            forall|j: int| 0 <= j < i ==> (#[trigger] to_port@[j])@ == port_to_port_items(*vm)[j],
        decreases n - i,
    {
        let vm_port = *vm.port_map.key_at(i);
        let pub_port = *vm.port_map.value_at(i);
        let mut a = u64_to_decimal(pub_port as u64);
        push_str(&mut a, ":");
        push_str(&mut a, vm.ip.as_str());
        to_ipv4.push(a);
        let mut b = u64_to_decimal(pub_port as u64);
        push_str(&mut b, ":");
        let c = u64_to_decimal(vm_port as u64);
        push_str(&mut b, c.as_str());
        to_port.push(b);
        i = i + 1;
    }
    assert(to_ipv4@.map_values(|s: String| s@) =~= port_to_ipv4_items(*vm));
    assert(to_port@.map_values(|s: String| s@) =~= port_to_port_items(*vm));
    let mut s = "\n            add element ".to_owned();
    push_str(&mut s, TABLE_PROTO);
    push_str(&mut s, " ");
    push_str(&mut s, TABLE_NAME);
    push_str(&mut s, " PORT_TO_IPV4 { ");
    let x = join_strings(&to_ipv4, ",");
    push_str(&mut s, x.as_str());
    push_str(&mut s, " };\n            add element ");
    push_str(&mut s, TABLE_PROTO);
    push_str(&mut s, " ");
    push_str(&mut s, TABLE_NAME);
    push_str(&mut s, " PORT_TO_PORT { ");
    let y = join_strings(&to_port, ",");
    push_str(&mut s, y.as_str());
    push_str(&mut s, " };\n        ");
    Some(s)
}

/// The public ports of the machines, machine after machine.
pub open spec fn ports_of_vms(vms: Seq<&Vm>) -> Seq<PubPort>
    decreases vms.len(),
{
    if vms.len() == 0 {
        Seq::empty()
    } else {
        ports_of_vms(vms.drop_last()) + vms.last().port_map@.map_values(|e: (u16, u16)| e.1)
    }
}

/// The entries of `s`, each once, in the order of their first occurrence.
pub open spec fn distinct(s: Seq<PubPort>) -> Seq<PubPort>
    decreases s.len(),
{
    if s.len() == 0 {
        s
    } else if distinct(s.drop_last()).contains(s.last()) {
        distinct(s.drop_last())
    } else {
        distinct(s.drop_last()).push(s.last())
    }
}

/// The rules that stop forwarding the public ports of the machines, if
/// they have any; each port is named once.
pub fn clean_rule_text(vm_set: &[&Vm]) -> (r: Option<String>)
    ensures
        distinct(ports_of_vms(vm_set@)).len() == 0 ==> r is None,
        distinct(ports_of_vms(vm_set@)).len() > 0 ==> (r matches Some(s) && ({
            let p = joined(distinct(ports_of_vms(vm_set@)).map_values(|x: u16| decimal(x as int)), ","@);
            s@ == "\n            delete element "@ + TABLE_PROTO@ + " "@ + TABLE_NAME@
                + " PORT_TO_IPV4 {"@ + p + "};\n            delete element "@ + TABLE_PROTO@ + " "@
                + TABLE_NAME@ + " PORT_TO_PORT {"@ + p + "};\n            "@
        })),
{
    let n = vm_set.len();
    let mut ports: Vec<PubPort> = Vec::new();
    let mut i: usize = 0;
    assert(vm_set@.take(0) =~= Seq::<&Vm>::empty());
    while i < n
        invariant
            n == vm_set@.len(),
            i <= n,
            ports@ == distinct(ports_of_vms(vm_set@.take(i as int))),
        decreases n - i,
    {
        let vm = vm_set[i];
        let m = vm.port_map.len();
        let ghost done = ports_of_vms(vm_set@.take(i as int));
        let ghost these = vm.port_map@.map_values(|e: (u16, u16)| e.1);
        let mut j: usize = 0;
        assert(done + these.take(0) =~= done);
        while j < m
            invariant
                m == vm.port_map@.len(),
                these == vm.port_map@.map_values(|e: (u16, u16)| e.1),
                j <= m,
                ports@ == distinct(done + these.take(j as int)),
            decreases m - j,
        {
            let p = *vm.port_map.value_at(j);
            let ghost all = done + these.take(j + 1);
            assert(all.drop_last() =~= done + these.take(j as int));
            assert(all.last() == p);
            let k = ports.len();
            let mut t: usize = 0;
            let mut seen = false;
            while t < k
                invariant
                    k == ports@.len(),
                    t <= k,
                    seen == exists|u: int| 0 <= u < t && #[trigger] ports@[u] == p,
                decreases k - t,
            {
                if ports[t] == p {
                    seen = true;
                }
                t = t + 1;
            }
            assert(seen == ports@.contains(p));
            if !seen {
                ports.push(p);
            }
            j = j + 1;
        }
        assert(these.take(m as int) =~= these);
        assert(vm_set@.take(i + 1).drop_last() =~= vm_set@.take(i as int));
        assert(vm_set@.take(i + 1).last() == vm_set@[i as int]);
        i = i + 1;
    }
    assert(vm_set@.take(n as int) =~= vm_set@);
    if ports.len() == 0 {
        return None;
    }
    let mut texts: Vec<String> = Vec::new();
    let k = ports.len();
    let mut t: usize = 0;
    while t < k
        invariant
            k == ports@.len(),
            t <= k,
            texts@.len() == t,
            forall|u: int| 0 <= u < t ==> (#[trigger] texts@[u])@ == decimal(ports@[u] as int),
        decreases k - t,
    {
        texts.push(u64_to_decimal(ports[t] as u64));
        t = t + 1;
    }
    assert(texts@.map_values(|s: String| s@) =~= ports@.map_values(|x: u16| decimal(x as int)));
    let joined_ports = join_strings(&texts, ",");
    let mut s = "\n            delete element ".to_owned();
    push_str(&mut s, TABLE_PROTO);
    push_str(&mut s, " ");
    push_str(&mut s, TABLE_NAME);
    push_str(&mut s, " PORT_TO_IPV4 {");
    push_str(&mut s, joined_ports.as_str());
    push_str(&mut s, "};\n            delete element ");
    push_str(&mut s, TABLE_PROTO);
    push_str(&mut s, " ");
    push_str(&mut s, TABLE_NAME);
    push_str(&mut s, " PORT_TO_PORT {");
    push_str(&mut s, joined_ports.as_str());
    push_str(&mut s, "};\n            ");
    Some(s)
}

} // verus!
