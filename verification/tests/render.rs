use ndiff_rs::delta::HostDelta;
use ndiff_rs::diff::HostDiff;
use ndiff_rs::host::{
    Address, Host, HostState, HostStatus, Hostname, Port, PortState, PortStatus, Protocol,
    ServiceInfo,
};
use ndiff_rs::render::{render_addresses, render_hostnames, render_ports};

fn up_status() -> HostStatus {
    HostStatus { state: HostState::Up, reason: String::from("syn-ack") }
}

fn tcp_open(number: u16) -> Port {
    Port {
        protocol: Protocol::Tcp,
        port_number: number,
        status: PortStatus { state: PortState::Open, reason: String::from("syn-ack") },
        service_info: None,
    }
}

fn ip(addr: &str) -> Address {
    Address::Ip(String::from(addr))
}

fn named(name: &str) -> Hostname {
    Hostname { name: String::from(name) }
}

#[test]
fn ports_line_single() {
    let v = vec![tcp_open(80)];
    assert_eq!(render_ports(&v), "tcp 80 (syn-ack)");
}

#[test]
fn ports_line_with_service_and_join() {
    let mut p = tcp_open(80);
    p.service_info = Some(ServiceInfo { name: String::from("http") });
    let q = Port {
        protocol: Protocol::Udp,
        port_number: 53,
        status: PortStatus { state: PortState::Open, reason: String::from("udp-response") },
        service_info: None,
    };
    let v = vec![p, q];
    assert_eq!(render_ports(&v), "tcp 80 (syn-ack) [http], udp 53 (udp-response)");
}

#[test]
fn ports_line_empty() {
    let v: Vec<Port> = vec![];
    assert_eq!(render_ports(&v), "<nothing to show>");
}

#[test]
fn ports_line_number_edges() {
    let v = vec![tcp_open(0), tcp_open(65535), tcp_open(1000)];
    assert_eq!(render_ports(&v), "tcp 0 (syn-ack), tcp 65535 (syn-ack), tcp 1000 (syn-ack)");
}

#[test]
fn addresses_line() {
    let v = vec![ip("10.0.0.1"), Address::Mac(String::from("aa:bb:cc:dd:ee:ff"))];
    assert_eq!(render_addresses(&v), "10.0.0.1, aa:bb:cc:dd:ee:ff");
    let empty: Vec<Address> = vec![];
    assert_eq!(render_addresses(&empty), "<nothing to show>");
}

#[test]
fn hostnames_line() {
    let v = vec![named("a.example"), named("b.example")];
    assert_eq!(render_hostnames(&v), "a.example, b.example");
    let empty: Vec<Hostname> = vec![];
    assert_eq!(render_hostnames(&empty), "<nothing to show>");
}

#[test]
fn title_with_and_without_fields() {
    let full = Host {
        status: up_status(),
        ports: vec![],
        addresses: vec![ip("10.0.0.1")],
        hostnames: vec![named("a.example"), named("b.example")],
    };
    assert_eq!(full.get_title(), "a.example (10.0.0.1)");
    let bare = Host { status: up_status(), ports: vec![], addresses: vec![], hostnames: vec![] };
    assert_eq!(bare.get_title(), "<no hostname> (<no address>)");
}

#[test]
fn host_block() {
    let h = Host {
        status: up_status(),
        ports: vec![tcp_open(80)],
        addresses: vec![ip("10.0.0.1")],
        hostnames: vec![named("a.example")],
    };
    assert_eq!(
        h.render(),
        "| Status: up (syn-ack)\n| Ports: tcp 80 (syn-ack)\n| Addresses: 10.0.0.1\n| Hostnames: a.example\n"
    );
}

#[test]
fn diff_block_shows_only_changes() {
    let left = Host {
        status: up_status(),
        ports: vec![tcp_open(80)],
        addresses: vec![ip("10.0.0.1")],
        hostnames: vec![],
    };
    let right = Host {
        status: HostStatus { state: HostState::Down, reason: String::from("no-response") },
        ports: vec![tcp_open(80)],
        addresses: vec![ip("10.0.0.1")],
        hostnames: vec![],
    };
    let d = HostDiff::from_hosts(&left, &right);
    assert_eq!(d.render(), "| Status: up (syn-ack) => down (no-response)\n");
}

#[test]
fn diff_block_ports_change() {
    let left = Host {
        status: up_status(),
        ports: vec![tcp_open(80)],
        addresses: vec![ip("10.0.0.1")],
        hostnames: vec![],
    };
    let right = Host {
        status: up_status(),
        ports: vec![tcp_open(80), tcp_open(443)],
        addresses: vec![ip("10.0.0.1")],
        hostnames: vec![],
    };
    let d = HostDiff::from_hosts(&left, &right);
    assert_eq!(d.render(), "| Ports: <nothing to show> => tcp 443 (syn-ack)\n");
}

#[test]
fn delta_blocks() {
    let h = Host {
        status: up_status(),
        ports: vec![],
        addresses: vec![ip("10.0.0.1")],
        hostnames: vec![named("a.example")],
    };
    let gone = HostDelta::Gone(h);
    assert_eq!(gone.render(), "[?] Gone Host: a.example (10.0.0.1)\n\n");

    let h2 = Host {
        status: up_status(),
        ports: vec![],
        addresses: vec![ip("10.0.0.2")],
        hostnames: vec![],
    };
    let new = HostDelta::New(h2);
    assert_eq!(
        new.render(),
        "[+] New Host: <no hostname> (10.0.0.2)\n| Status: up (syn-ack)\n| Ports: <nothing to show>\n| Addresses: 10.0.0.2\n| Hostnames: <nothing to show>\n\n"
    );
}

#[test]
fn changed_delta_block() {
    let old = vec![Host {
        status: up_status(),
        ports: vec![tcp_open(80)],
        addresses: vec![ip("10.0.0.1")],
        hostnames: vec![named("a.example")],
    }];
    let new = vec![Host {
        status: up_status(),
        ports: vec![tcp_open(80), tcp_open(443)],
        addresses: vec![ip("10.0.0.1")],
        hostnames: vec![named("a.example")],
    }];
    let deltas = HostDelta::from_scans(&old, &new);
    assert_eq!(deltas.len(), 1);
    assert_eq!(
        deltas[0].render(),
        "[*] Changed Host: a.example (10.0.0.1)\n| Ports: <nothing to show> => tcp 443 (syn-ack)\n\n"
    );
}
