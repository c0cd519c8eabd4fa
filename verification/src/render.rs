use vstd::prelude::*;
use vstd::string::StringExecFns;

use crate::delta::{DeltaView, HostDelta};
use crate::diff::{HostDiff, HostDiffView};
use crate::host::{
    address_text, addresses_view, hostnames_view, ports_view, title_view, Address, AddressView,
    Host, HostState, HostStatus, HostStatusView, HostView, Hostname, Port, PortView, Protocol,
};

verus! {

/// The decimal digit for one value below ten.
pub open spec fn digit_char(d: int) -> char {
    if d == 0 {
        '0'
    } else if d == 1 {
        '1'
    } else if d == 2 {
        '2'
    } else if d == 3 {
        '3'
    } else if d == 4 {
        '4'
    } else if d == 5 {
        '5'
    } else if d == 6 {
        '6'
    } else if d == 7 {
        '7'
    } else if d == 8 {
        '8'
    } else {
        '9'
    }
}

/// The decimal writing of a number, most significant digit first, with no
/// leading zero except for the number zero itself.
pub open spec fn dec_digits(n: int) -> Seq<char>
    recommends
        0 <= n,
    decreases n,
{
    if n < 10 {
        seq![digit_char(n)]
    } else {
        dec_digits(n / 10).push(digit_char(n % 10))
    }
}

/// The text of a host state, as the scanner writes it.
pub open spec fn state_text(s: HostState) -> Seq<char> {
    match s {
        HostState::Up => "up"@,
        HostState::Down => "down"@,
        HostState::Unknown => "unknown"@,
        HostState::Skipped => "skipped"@,
    }
}

/// The text of a transport protocol, as the scanner writes it.
pub open spec fn protocol_text(p: Protocol) -> Seq<char> {
    match p {
        Protocol::Ip => "ip"@,
        Protocol::Tcp => "tcp"@,
        Protocol::Udp => "udp"@,
        Protocol::Sctp => "sctp"@,
    }
}

/// One port's line fragment: protocol, number, status reason, and the
/// detected service in brackets when there is one.
pub open spec fn port_text(p: PortView) -> Seq<char> {
    let base = protocol_text(p.protocol) + " "@ + dec_digits(p.port_number as int) + " ("@
        + p.status.reason + ")"@;
    match p.service_name {
        Option::Some(n) => base + " ["@ + n + "]"@,
        Option::None => base,
    }
}

/// The items joined with a comma and a space between each two.
pub open spec fn joined_items(items: Seq<Seq<char>>) -> Seq<char>
    decreases items.len(),
{
    if items.len() == 0 {
        Seq::empty()
    } else if items.len() == 1 {
        items[0]
    } else {
        joined_items(items.drop_last()) + ", "@ + items.last()
    }
}

/// A port list as one comma-joined line, with a placeholder when empty.
pub open spec fn ports_text(s: Seq<PortView>) -> Seq<char> {
    if s.len() == 0 {
        "<nothing to show>"@
    } else {
        joined_items(s.map_values(|p: PortView| port_text(p)))
    }
}

/// An address list as one comma-joined line, with a placeholder when empty.
pub open spec fn addresses_text(s: Seq<AddressView>) -> Seq<char> {
    if s.len() == 0 {
        "<nothing to show>"@
    } else {
        joined_items(s.map_values(|a: AddressView| address_text(a)))
    }
}

/// A hostname list as one comma-joined line, with a placeholder when empty.
pub open spec fn hostnames_text(s: Seq<Seq<char>>) -> Seq<char> {
    if s.len() == 0 {
        "<nothing to show>"@
    } else {
        joined_items(s)
    }
}

/// A whole host as a text block: one line per field.
pub open spec fn host_text(h: HostView) -> Seq<char> {
    "| Status: "@ + state_text(h.status.state) + " ("@ + h.status.reason + ")\n"@ + "| Ports: "@
        + ports_text(h.ports) + "\n"@ + "| Addresses: "@ + addresses_text(h.addresses) + "\n"@
        + "| Hostnames: "@ + hostnames_text(h.hostnames) + "\n"@
}

/// The status line of a diff: old and new status with an arrow between.
pub open spec fn status_pair_text(a: HostStatusView, b: HostStatusView) -> Seq<char> {
    "| Status: "@ + state_text(a.state) + " ("@ + a.reason + ") => "@ + state_text(b.state) + " ("@
        + b.reason + ")\n"@
}

/// A diff as a text block: one line per field still present, nothing for a
/// field on which the two hosts agree.
pub open spec fn diff_text(d: HostDiffView) -> Seq<char> {
    (match d.status {
        Option::Some((a, b)) => status_pair_text(a, b),
        Option::None => Seq::empty(),
    }) + (match d.ports {
        Option::Some((l, r)) => "| Ports: "@ + ports_text(l) + " => "@ + ports_text(r) + "\n"@,
        Option::None => Seq::empty(),
    }) + (match d.addresses {
        Option::Some((l, r)) => "| Addresses:"@ + addresses_text(l) + " => "@ + addresses_text(r)
            + "\n"@,
        Option::None => Seq::empty(),
    }) + (match d.hostnames {
        Option::Some((l, r)) => "| Hostnames: "@ + hostnames_text(l) + " => "@ + hostnames_text(r)
            + "\n"@,
        Option::None => Seq::empty(),
    })
}

/// A delta as a text block: a headline naming the kind and the host, then
/// the diff or the host block — `Gone` hosts get no block, they no longer
/// exist to describe.
pub open spec fn delta_text(d: DeltaView) -> Seq<char> {
    match d {
        DeltaView::Changed(x) => "[*] Changed Host: "@ + x.title + "\n"@ + diff_text(x) + "\n"@,
        DeltaView::Unchanged(h) => "[-] Unchanged Host: "@ + title_view(h) + "\n"@ + host_text(h)
            + "\n"@,
        DeltaView::Gone(h) => "[?] Gone Host: "@ + title_view(h) + "\n\n"@,
        DeltaView::New(h) => "[+] New Host: "@ + title_view(h) + "\n"@ + host_text(h) + "\n"@,
    }
}

/// One decimal digit as text.
fn digit_str(d: u16) -> (r: &'static str)
    requires
        d < 10,
    ensures
        r@ == seq![digit_char(d as int)],
{
    proof {
        reveal_strlit("0");
        reveal_strlit("1");
        reveal_strlit("2");
        reveal_strlit("3");
        reveal_strlit("4");
        reveal_strlit("5");
        reveal_strlit("6");
        reveal_strlit("7");
        reveal_strlit("8");
        reveal_strlit("9");
        assert("0"@ =~= seq!['0']);
        assert("1"@ =~= seq!['1']);
        assert("2"@ =~= seq!['2']);
        assert("3"@ =~= seq!['3']);
        assert("4"@ =~= seq!['4']);
        assert("5"@ =~= seq!['5']);
        assert("6"@ =~= seq!['6']);
        assert("7"@ =~= seq!['7']);
        assert("8"@ =~= seq!['8']);
        assert("9"@ =~= seq!['9']);
    }
    match d {
        0 => "0",
        1 => "1",
        2 => "2",
        3 => "3",
        4 => "4",
        5 => "5",
        6 => "6",
        7 => "7",
        8 => "8",
        _ => "9",
    }
}

/// The decimal writing of a port number.
fn u16_text(n: u16) -> (s: String)
    ensures
        s@ == dec_digits(n as int),
    decreases n,
{
    if n < 10 {
        digit_str(n).to_owned()
    } else {
        let mut s = u16_text(n / 10);
        s.append(digit_str(n % 10));
        proof {
            assert(dec_digits((n / 10) as int) + seq![digit_char((n % 10) as int)] =~= dec_digits(
                (n / 10) as int,
            ).push(digit_char((n % 10) as int)));
            assert((n / 10) as int == n as int / 10);
            assert((n % 10) as int == n as int % 10);
        }
        s
    }
}

/// The text of a host state.
fn state_str(s: HostState) -> (r: &'static str)
    ensures
        r@ == state_text(s),
{
    match s {
        HostState::Up => "up",
        HostState::Down => "down",
        HostState::Unknown => "unknown",
        HostState::Skipped => "skipped",
    }
}

/// The text of a transport protocol.
fn protocol_str(p: Protocol) -> (r: &'static str)
    ensures
        r@ == protocol_text(p),
{
    match p {
        Protocol::Ip => "ip",
        Protocol::Tcp => "tcp",
        Protocol::Udp => "udp",
        Protocol::Sctp => "sctp",
    }
}

/// One port's line fragment.
fn port_str(p: &Port) -> (s: String)
    ensures
        s@ == port_text(p@),
{
    let mut s = protocol_str(p.protocol).to_owned();
    s.append(" ");
    s.append(u16_text(p.port_number).as_str());
    s.append(" (");
    s.append(p.status.reason.as_str());
    s.append(")");
    match &p.service_info {
        Option::Some(si) => {
            s.append(" [");
            s.append(si.name.as_str());
            s.append("]");
        },
        Option::None => {},
    }
    s
}

/// A port list as one comma-joined line.
pub fn render_ports(v: &Vec<Port>) -> (s: String)
    ensures
        s@ == ports_text(ports_view(v@)),
{
    if v.len() == 0 {
        return "<nothing to show>".to_owned();
    }
    let ghost items = ports_view(v@).map_values(|p: PortView| port_text(p));
    let mut s = String::new();
    let mut i: usize = 0;
    while i < v.len()
        invariant
            0 < v@.len(),
            i <= v.len(),
            items == ports_view(v@).map_values(|p: PortView| port_text(p)),
            s@ == joined_items(items.take(i as int)),
        decreases v.len() - i,
    {
        if i > 0 {
            s.append(", ");
        }
        s.append(port_str(&v[i]).as_str());
        i = i + 1;
        proof {
            let cur = items.take(i as int);
            assert(cur.last() == port_text(v@[i - 1]@));
            if i == 1 {
                assert(s@ =~= cur[0]);
            } else {
                assert(cur.drop_last() =~= items.take(i - 1));
                assert(s@ == joined_items(items.take(i - 1)) + ", "@ + cur.last());
            }
        }
    }
    proof {
        assert(items.take(items.len() as int) =~= items);
    }
    s
}

/// An address list as one comma-joined line.
pub fn render_addresses(v: &Vec<Address>) -> (s: String)
    ensures
        s@ == addresses_text(addresses_view(v@)),
{
    if v.len() == 0 {
        return "<nothing to show>".to_owned();
    }
    let ghost items = addresses_view(v@).map_values(|a: AddressView| address_text(a));
    let mut s = String::new();
    let mut i: usize = 0;
    while i < v.len()
        invariant
            0 < v@.len(),
            i <= v.len(),
            items == addresses_view(v@).map_values(|a: AddressView| address_text(a)),
            s@ == joined_items(items.take(i as int)),
        decreases v.len() - i,
    {
        if i > 0 {
            s.append(", ");
        }
        match &v[i] {
            Address::Ip(x) => s.append(x.as_str()),
            Address::Mac(x) => s.append(x.as_str()),
        }
        i = i + 1;
        proof {
            let cur = items.take(i as int);
            assert(cur.last() == address_text(v@[i - 1]@));
            if i == 1 {
                assert(s@ =~= cur[0]);
            } else {
                assert(cur.drop_last() =~= items.take(i - 1));
                assert(s@ == joined_items(items.take(i - 1)) + ", "@ + cur.last());
            }
        }
    }
    proof {
        assert(items.take(items.len() as int) =~= items);
    }
    s
}

/// A hostname list as one comma-joined line.
pub fn render_hostnames(v: &Vec<Hostname>) -> (s: String)
    ensures
        s@ == hostnames_text(hostnames_view(v@)),
{
    if v.len() == 0 {
        return "<nothing to show>".to_owned();
    }
    let ghost items = hostnames_view(v@);
    let mut s = String::new();
    let mut i: usize = 0;
    while i < v.len()
        invariant
            0 < v@.len(),
            i <= v.len(),
            items == hostnames_view(v@),
            s@ == joined_items(items.take(i as int)),
        decreases v.len() - i,
    {
        if i > 0 {
            s.append(", ");
        }
        s.append(v[i].name.as_str());
        i = i + 1;
        proof {
            let cur = items.take(i as int);
            assert(cur.last() == v@[i - 1]@);
            if i == 1 {
                assert(s@ =~= cur[0]);
            } else {
                assert(cur.drop_last() =~= items.take(i - 1));
                assert(s@ == joined_items(items.take(i - 1)) + ", "@ + cur.last());
            }
        }
    }
    proof {
        assert(items.take(items.len() as int) =~= items);
    }
    s
}

impl Host {
    /// The host as a text block: one line per field, with placeholders for
    /// empty lists.
    pub fn render(&self) -> (s: String)
        ensures
            s@ == host_text(self@),
    {
        let mut s = "| Status: ".to_owned();
        s.append(state_str(self.status.state));
        s.append(" (");
        s.append(self.status.reason.as_str());
        s.append(")\n");
        s.append("| Ports: ");
        s.append(render_ports(&self.ports).as_str());
        s.append("\n");
        s.append("| Addresses: ");
        s.append(render_addresses(&self.addresses).as_str());
        s.append("\n");
        s.append("| Hostnames: ");
        s.append(render_hostnames(&self.hostnames).as_str());
        s.append("\n");
        s
    }
}

/// The status line of a diff.
fn status_pair_str(a: &HostStatus, b: &HostStatus) -> (s: String)
    ensures
        s@ == status_pair_text(a@, b@),
{
    let mut s = "| Status: ".to_owned();
    s.append(state_str(a.state));
    s.append(" (");
    s.append(a.reason.as_str());
    s.append(") => ");
    s.append(state_str(b.state));
    s.append(" (");
    s.append(b.reason.as_str());
    s.append(")\n");
    s
}

impl HostDiff {
    /// The diff as a text block: one line per field still present.
    pub fn render(&self) -> (s: String)
        ensures
            s@ == diff_text(self@),
    {
        let mut s = match &self.status {
            Option::Some(p) => status_pair_str(&p.0, &p.1),
            Option::None => String::new(),
        };
        match &self.ports {
            Option::Some(p) => {
                let mut t = "| Ports: ".to_owned();
                t.append(render_ports(&p.0).as_str());
                t.append(" => ");
                t.append(render_ports(&p.1).as_str());
                t.append("\n");
                s.append(t.as_str());
            },
            Option::None => {},
        }
        match &self.addresses {
            Option::Some(p) => {
                let mut t = "| Addresses:".to_owned();
                t.append(render_addresses(&p.0).as_str());
                t.append(" => ");
                t.append(render_addresses(&p.1).as_str());
                t.append("\n");
                s.append(t.as_str());
            },
            Option::None => {},
        }
        match &self.hostnames {
            Option::Some(p) => {
                let mut t = "| Hostnames: ".to_owned();
                t.append(render_hostnames(&p.0).as_str());
                t.append(" => ");
                t.append(render_hostnames(&p.1).as_str());
                t.append("\n");
                s.append(t.as_str());
            },
            Option::None => {},
        }
        proof {
            assert(s@ =~= diff_text(self@));
        }
        s
    }
}

impl HostDelta {
    /// The delta as a text block: a headline naming the kind and the host,
    /// then the diff or the full host block.
    pub fn render(&self) -> (s: String)
        ensures
            s@ == delta_text(self@),
    {
        let s = match self {
            HostDelta::Changed(x) => {
                let mut s = "[*] Changed Host: ".to_owned();
                s.append(x.title.as_str());
                s.append("\n");
                s.append(x.render().as_str());
                s.append("\n");
                s
            },
            HostDelta::Unchanged(h) => {
                let mut s = "[-] Unchanged Host: ".to_owned();
                s.append(h.get_title().as_str());
                s.append("\n");
                s.append(h.render().as_str());
                s.append("\n");
                s
            },
            HostDelta::Gone(h) => {
                let mut s = "[?] Gone Host: ".to_owned();
                s.append(h.get_title().as_str());
                s.append("\n\n");
                s
            },
            HostDelta::New(h) => {
                let mut s = "[+] New Host: ".to_owned();
                s.append(h.get_title().as_str());
                s.append("\n");
                s.append(h.render().as_str());
                s.append("\n");
                s
            },
        };
        s
    }
}

} // verus!
