use ndiff_rs::delta::HostDelta;
use ndiff_rs::diff::{same_address_set, same_hostname_set, same_port_set, HostDiff};
use ndiff_rs::host::{
    Address, Host, HostState, HostStatus, Hostname, Port, PortState, PortStatus, Protocol,
    ServiceInfo,
};
use ndiff_rs::matcher::same_host;

fn up_status() -> HostStatus {
    HostStatus { state: HostState::Up, reason: String::from("syn-ack") }
}

fn port(protocol: Protocol, number: u16, state: PortState, reason: &str) -> Port {
    Port {
        protocol,
        port_number: number,
        status: PortStatus { state, reason: String::from(reason) },
        service_info: None,
    }
}

fn tcp_open(number: u16) -> Port {
    port(Protocol::Tcp, number, PortState::Open, "syn-ack")
}

fn host(addresses: Vec<Address>, ports: Vec<Port>, hostnames: Vec<Hostname>) -> Host {
    Host { status: up_status(), ports, addresses, hostnames }
}

fn ip(addr: &str) -> Address {
    Address::Ip(String::from(addr))
}

fn named(name: &str) -> Hostname {
    Hostname { name: String::from(name) }
}

#[test]
fn identity_symmetry_concrete() {
    let a = host(vec![ip("10.0.0.1"), ip("10.0.0.9")], vec![], vec![]);
    let b = host(vec![ip("10.0.0.9")], vec![], vec![]);
    let c = host(vec![ip("192.168.0.1")], vec![], vec![]);
    assert_eq!(same_host(&a, &b), same_host(&b, &a));
    assert!(same_host(&a, &b));
    assert_eq!(same_host(&a, &c), same_host(&c, &a));
    assert!(!same_host(&a, &c));
}

#[test]
fn no_address_never_matches() {
    let empty1 = host(vec![], vec![], vec![named("a.example")]);
    let empty2 = host(vec![], vec![], vec![named("a.example")]);
    let full = host(vec![ip("10.0.0.1")], vec![], vec![]);
    assert!(!same_host(&empty1, &empty2));
    assert!(!same_host(&empty1, &full));
    assert!(!same_host(&full, &empty1));
}

#[test]
fn mac_and_ip_do_not_mix() {
    let a = host(vec![Address::Mac(String::from("aa:bb:cc:dd:ee:ff"))], vec![], vec![]);
    let b = host(vec![ip("aa:bb:cc:dd:ee:ff")], vec![], vec![]);
    assert!(!same_host(&a, &b));
}

#[test]
fn port_set_ignores_order() {
    let l1 = vec![tcp_open(80), tcp_open(443), tcp_open(22)];
    let l2 = vec![tcp_open(22), tcp_open(80), tcp_open(443)];
    let r = vec![tcp_open(443), tcp_open(22), tcp_open(80)];
    assert!(same_port_set(&l1, &r));
    assert!(same_port_set(&l2, &r));
    assert!(same_port_set(&l1, &l2));
}

#[test]
fn port_set_sees_service_change() {
    let plain = vec![tcp_open(80)];
    let mut with_service = vec![tcp_open(80)];
    with_service[0].service_info = Some(ServiceInfo { name: String::from("http") });
    assert!(!same_port_set(&plain, &with_service));
}

#[test]
fn address_set_semantics() {
    let ab = vec![ip("10.0.0.1"), ip("10.0.0.2")];
    let ba = vec![ip("10.0.0.2"), ip("10.0.0.1")];
    let a = vec![ip("10.0.0.1")];
    assert!(same_address_set(&ab, &ba));
    assert!(!same_address_set(&ab, &a));
    assert!(!same_address_set(&a, &ab));
}

#[test]
fn hostname_set_semantics() {
    let ab = vec![named("a.example"), named("b.example")];
    let ba = vec![named("b.example"), named("a.example")];
    let a = vec![named("a.example")];
    assert!(same_hostname_set(&ab, &ba));
    assert!(!same_hostname_set(&ab, &a));
    assert!(!same_hostname_set(&a, &ab));
}

#[test]
fn address_set_ignores_repetition() {
    let aa = vec![ip("10.0.0.1"), ip("10.0.0.1")];
    let a = vec![ip("10.0.0.1")];
    assert!(same_address_set(&aa, &a));
    assert!(same_address_set(&a, &aa));
}

// Two ports that share a number but differ in protocol are ordered by the
// stable sort as they arrived, so their relative order takes part in the
// comparison. This pins the accepted edge case; with distinct numbers the
// comparison is order-free.
#[test]
fn port_number_tie_is_order_sensitive() {
    let a = tcp_open(80);
    let b = port(Protocol::Udp, 80, PortState::Open, "udp-response");
    let ab = vec![a.duplicate(), b.duplicate()];
    let ba = vec![b.duplicate(), a.duplicate()];
    assert!(same_port_set(&ab, &ab));
    assert!(!same_port_set(&ab, &ba));
}

#[test]
fn suppression_idempotent_concrete() {
    let old_ports = vec![tcp_open(80), tcp_open(22)];
    let new_ports = vec![tcp_open(80), tcp_open(443)];
    let left = host(vec![ip("10.0.0.1")], old_ports, vec![]);
    let right = host(vec![ip("10.0.0.1")], new_ports, vec![]);
    let mut d = HostDiff::from_hosts(&left, &right);
    let once: (Vec<Port>, Vec<Port>) = {
        let p = d.ports.as_ref().expect("ports must differ");
        (
            p.0.iter().map(|x| x.duplicate()).collect(),
            p.1.iter().map(|x| x.duplicate()).collect(),
        )
    };
    d.remove_identical_ports();
    let twice = d.ports.as_ref().expect("ports still present");
    assert_eq!(once.0.len(), twice.0.len());
    assert_eq!(once.1.len(), twice.1.len());
    for (a, b) in once.0.iter().zip(twice.0.iter()) {
        assert!(a.same(b));
    }
    for (a, b) in once.1.iter().zip(twice.1.iter()) {
        assert!(a.same(b));
    }
}

#[test]
fn diff_of_equal_hosts_is_unchanged() {
    let left = host(
        vec![ip("10.0.0.1")],
        vec![tcp_open(80)],
        vec![named("a.example")],
    );
    let right = host(
        vec![ip("10.0.0.1")],
        vec![tcp_open(80)],
        vec![named("a.example")],
    );
    let d = HostDiff::from_hosts(&left, &right);
    assert!(d.is_unchanged());
    assert!(d.status.is_none());
    assert!(d.ports.is_none());
    assert!(d.addresses.is_none());
    assert!(d.hostnames.is_none());
}

// Old snapshot: 10.0.0.1 with tcp/80 open. New snapshot: same address,
// tcp/80 open and tcp/443 open. The delta is Changed, and after noise
// suppression the ports diff keeps only tcp/443 on the new side.
#[test]
fn scenario_port_added() {
    let old = vec![host(vec![ip("10.0.0.1")], vec![tcp_open(80)], vec![])];
    let new = vec![host(vec![ip("10.0.0.1")], vec![tcp_open(80), tcp_open(443)], vec![])];
    let deltas = HostDelta::from_scans(&old, &new);
    assert_eq!(deltas.len(), 1);
    match &deltas[0] {
        HostDelta::Changed(d) => {
            assert!(d.status.is_none());
            assert!(d.addresses.is_none());
            assert!(d.hostnames.is_none());
            let p = d.ports.as_ref().expect("ports diff expected");
            assert_eq!(p.0.len(), 0);
            assert_eq!(p.1.len(), 1);
            assert_eq!(p.1[0].port_number, 443);
            assert!(matches!(p.1[0].protocol, Protocol::Tcp));
            assert!(matches!(p.1[0].status.state, PortState::Open));
        },
        _ => panic!("expected a Changed delta"),
    }
}

// Old host 10.0.0.2 has no counterpart address in the new snapshot: it is
// reported Gone, and nothing else is reported for it.
#[test]
fn scenario_host_gone() {
    let old = vec![host(vec![ip("10.0.0.2")], vec![tcp_open(22)], vec![named("b.example")])];
    let new: Vec<Host> = vec![];
    let deltas = HostDelta::from_scans(&old, &new);
    assert_eq!(deltas.len(), 1);
    match &deltas[0] {
        HostDelta::Gone(h) => {
            assert_eq!(h.addresses.len(), 1);
            assert!(h.addresses[0].same(&ip("10.0.0.2")));
        },
        _ => panic!("expected a Gone delta"),
    }
}

// A host identical in every field across both snapshots is Unchanged, not
// Changed with an empty diff.
#[test]
fn scenario_host_identical() {
    let mk = || {
        host(
            vec![ip("10.0.0.3")],
            vec![tcp_open(80), tcp_open(443)],
            vec![named("c.example")],
        )
    };
    let old = vec![mk()];
    let new = vec![mk()];
    let deltas = HostDelta::from_scans(&old, &new);
    assert_eq!(deltas.len(), 1);
    match &deltas[0] {
        HostDelta::Unchanged(h) => {
            assert!(h.addresses[0].same(&ip("10.0.0.3")));
        },
        _ => panic!("expected an Unchanged delta"),
    }
}

// Only the status changes: the Changed delta carries the old and the new
// status and nothing else.
#[test]
fn scenario_status_change() {
    let mut old_host = host(vec![ip("10.0.0.4")], vec![tcp_open(80)], vec![]);
    old_host.status = HostStatus { state: HostState::Up, reason: String::from("syn-ack") };
    let mut new_host = host(vec![ip("10.0.0.4")], vec![tcp_open(80)], vec![]);
    new_host.status = HostStatus { state: HostState::Down, reason: String::from("no-response") };
    let deltas = HostDelta::from_scans(&vec![old_host], &vec![new_host]);
    assert_eq!(deltas.len(), 1);
    match &deltas[0] {
        HostDelta::Changed(d) => {
            assert!(d.ports.is_none());
            assert!(d.addresses.is_none());
            assert!(d.hostnames.is_none());
            let s = d.status.as_ref().expect("status diff expected");
            assert!(matches!(s.0.state, HostState::Up));
            assert_eq!(s.0.reason, "syn-ack");
            assert!(matches!(s.1.state, HostState::Down));
            assert_eq!(s.1.reason, "no-response");
        },
        _ => panic!("expected a Changed delta"),
    }
}

// The output order: all Gone deltas (old order), then all New deltas (new
// order), then the Changed/Unchanged deltas (new order).
#[test]
fn scenario_output_order() {
    let old = vec![
        host(vec![ip("10.0.0.1")], vec![], vec![]),
        host(vec![ip("10.0.0.2")], vec![], vec![]),
        host(vec![ip("10.0.0.3")], vec![tcp_open(80)], vec![]),
    ];
    let new = vec![
        host(vec![ip("10.0.0.3")], vec![tcp_open(443)], vec![]),
        host(vec![ip("10.0.0.5")], vec![], vec![]),
        host(vec![ip("10.0.0.1")], vec![], vec![]),
    ];
    let deltas = HostDelta::from_scans(&old, &new);
    assert_eq!(deltas.len(), 4);
    match &deltas[0] {
        HostDelta::Gone(h) => assert!(h.addresses[0].same(&ip("10.0.0.2"))),
        _ => panic!("expected Gone first"),
    }
    match &deltas[1] {
        HostDelta::New(h) => assert!(h.addresses[0].same(&ip("10.0.0.5"))),
        _ => panic!("expected New second"),
    }
    match &deltas[2] {
        HostDelta::Changed(d) => {
            let p = d.ports.as_ref().expect("ports diff expected");
            assert_eq!(p.0[0].port_number, 80);
            assert_eq!(p.1[0].port_number, 443);
        },
        _ => panic!("expected Changed third"),
    }
    match &deltas[3] {
        HostDelta::Unchanged(h) => assert!(h.addresses[0].same(&ip("10.0.0.1"))),
        _ => panic!("expected Unchanged fourth"),
    }
}

// A new host that matches several old hosts is paired with the first
// matching old host in old-snapshot order.
#[test]
fn first_match_wins() {
    let old = vec![
        host(vec![ip("10.0.0.1")], vec![tcp_open(80)], vec![]),
        host(vec![ip("10.0.0.2")], vec![tcp_open(22)], vec![]),
    ];
    let new = vec![host(vec![ip("10.0.0.1"), ip("10.0.0.2")], vec![tcp_open(80)], vec![])];
    let deltas = HostDelta::from_scans(&old, &new);
    // both old hosts match the new one, so neither is Gone; the new host is
    // compared against the first old host and found changed only in its
    // address list
    assert_eq!(deltas.len(), 1);
    match &deltas[0] {
        HostDelta::Changed(d) => {
            assert!(d.status.is_none());
            assert!(d.ports.is_none());
            assert!(d.hostnames.is_none());
            let a = d.addresses.as_ref().expect("addresses diff expected");
            assert_eq!(a.0.len(), 1);
            assert_eq!(a.1.len(), 2);
        },
        _ => panic!("expected a Changed delta"),
    }
}

// A port whose only change is the detected service still yields a ports
// diff, but noise suppression removes it from both sides: the diff entry
// stays with two empty lists.
#[test]
fn service_only_change_keeps_diff_entry() {
    let old = vec![host(vec![ip("10.0.0.6")], vec![tcp_open(80)], vec![])];
    let mut changed = tcp_open(80);
    changed.service_info = Some(ServiceInfo { name: String::from("http") });
    let new = vec![host(vec![ip("10.0.0.6")], vec![changed], vec![])];
    let deltas = HostDelta::from_scans(&old, &new);
    assert_eq!(deltas.len(), 1);
    match &deltas[0] {
        HostDelta::Changed(d) => {
            let p = d.ports.as_ref().expect("ports diff expected");
            assert_eq!(p.0.len(), 0);
            assert_eq!(p.1.len(), 0);
        },
        _ => panic!("expected a Changed delta"),
    }
}

#[test]
fn empty_snapshots_give_no_deltas() {
    let deltas = HostDelta::from_scans(&vec![], &vec![]);
    assert_eq!(deltas.len(), 0);
}
