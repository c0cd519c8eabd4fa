use vstd::prelude::*;
use vstd::string::StringExecFns;

verus! {

/// Reachability of a host as the scanner reported it.
#[derive(PartialEq, Eq, Structural, Clone, Copy, Debug)]
pub enum HostState {
    Up,
    Down,
    Unknown,
    Skipped,
}

/// Transport protocol of a scanned port.
#[derive(PartialEq, Eq, Structural, Clone, Copy, Debug)]
pub enum Protocol {
    Ip,
    Tcp,
    Udp,
    Sctp,
}

/// State of a scanned port.
#[derive(PartialEq, Eq, Structural, Clone, Copy, Debug)]
pub enum PortState {
    Open,
    Closed,
    Filtered,
    Unfiltered,
    OpenFiltered,
    CloseFiltered,
}

/// A host's status: its state together with the scanner's reason for it.
pub struct HostStatus {
    pub state: HostState,
    pub reason: String,
}

/// Mathematical model of a `HostStatus`.
pub struct HostStatusView {
    pub state: HostState,
    pub reason: Seq<char>,
}

impl View for HostStatus {
    type V = HostStatusView;

    open spec fn view(&self) -> HostStatusView {
        HostStatusView { state: self.state, reason: self.reason@ }
    }
}

/// A port's status: its state together with the scanner's reason for it.
pub struct PortStatus {
    pub state: PortState,
    pub reason: String,
}

/// Mathematical model of a `PortStatus`.
pub struct PortStatusView {
    pub state: PortState,
    pub reason: Seq<char>,
}

impl View for PortStatus {
    type V = PortStatusView;

    open spec fn view(&self) -> PortStatusView {
        PortStatusView { state: self.state, reason: self.reason@ }
    }
}

/// The service detected behind a port, when detection ran.
pub struct ServiceInfo {
    pub name: String,
}

/// One scanned port of a host.
pub struct Port {
    pub protocol: Protocol,
    pub port_number: u16,
    pub status: PortStatus,
    pub service_info: Option<ServiceInfo>,
}

/// Mathematical model of a `Port`; the service is reduced to its name.
pub struct PortView {
    pub protocol: Protocol,
    pub port_number: u16,
    pub status: PortStatusView,
    pub service_name: Option<Seq<char>>,
}

impl View for Port {
    type V = PortView;

    open spec fn view(&self) -> PortView {
        PortView {
            protocol: self.protocol,
            port_number: self.port_number,
            status: self.status@,
            service_name: match self.service_info {
                Option::Some(ref s) => Option::Some(s.name@),
                Option::None => Option::None,
            },
        }
    }
}

/// One network address of a host: the string form of an IP address or of a
/// MAC address, tagged by kind.
pub enum Address {
    Ip(String),
    Mac(String),
}

/// Mathematical model of an `Address`.
pub enum AddressView {
    Ip(Seq<char>),
    Mac(Seq<char>),
}

impl View for Address {
    type V = AddressView;

    open spec fn view(&self) -> AddressView {
        match self {
            Address::Ip(s) => AddressView::Ip(s@),
            Address::Mac(s) => AddressView::Mac(s@),
        }
    }
}

/// One name of a host. Hostnames carry no identity: they only decorate
/// titles and diffs.
pub struct Hostname {
    pub name: String,
}

impl View for Hostname {
    type V = Seq<char>;

    open spec fn view(&self) -> Seq<char> {
        self.name@
    }
}

/// One discovered host of a snapshot: its status, its scanned ports in
/// scanner order, its addresses and its hostnames.
pub struct Host {
    pub status: HostStatus,
    pub ports: Vec<Port>,
    pub addresses: Vec<Address>,
    pub hostnames: Vec<Hostname>,
}

/// Mathematical model of a `Host`.
pub struct HostView {
    pub status: HostStatusView,
    pub ports: Seq<PortView>,
    pub addresses: Seq<AddressView>,
    pub hostnames: Seq<Seq<char>>,
}

impl View for Host {
    type V = HostView;

    open spec fn view(&self) -> HostView {
        HostView {
            status: self.status@,
            ports: self.ports@.map_values(|p: Port| p@),
            addresses: self.addresses@.map_values(|a: Address| a@),
            hostnames: self.hostnames@.map_values(|h: Hostname| h@),
        }
    }
}

/// The models of a sequence of ports.
pub open spec fn ports_view(s: Seq<Port>) -> Seq<PortView> {
    s.map_values(|p: Port| p@)
}

/// The models of a sequence of addresses.
pub open spec fn addresses_view(s: Seq<Address>) -> Seq<AddressView> {
    s.map_values(|a: Address| a@)
}

/// The models of a sequence of hostnames.
pub open spec fn hostnames_view(s: Seq<Hostname>) -> Seq<Seq<char>> {
    s.map_values(|h: Hostname| h@)
}

/// The models of a snapshot: a sequence of hosts.
pub open spec fn hosts_view(s: Seq<Host>) -> Seq<HostView> {
    s.map_values(|h: Host| h@)
}

impl Address {
    /// Exact equality of two addresses: same kind, same string form.
    pub fn same(&self, other: &Address) -> (r: bool)
        ensures
            r == (self@ == other@),
    {
        match (self, other) {
            (Address::Ip(x), Address::Ip(y)) => x.eq(y),
            (Address::Mac(x), Address::Mac(y)) => x.eq(y),
            _ => false,
        }
    }

    /// A fresh address with the same value.
    pub fn duplicate(&self) -> (r: Address)
        ensures
            r@ == self@,
    {
        match self {
            Address::Ip(x) => Address::Ip(x.clone()),
            Address::Mac(x) => Address::Mac(x.clone()),
        }
    }
}

impl Hostname {
    /// Exact equality of two hostnames.
    pub fn same(&self, other: &Hostname) -> (r: bool)
        ensures
            r == (self@ == other@),
    {
        self.name.eq(&other.name)
    }

    /// A fresh hostname with the same value.
    pub fn duplicate(&self) -> (r: Hostname)
        ensures
            r@ == self@,
    {
        Hostname { name: self.name.clone() }
    }
}

impl HostStatus {
    /// Whether host state is to be considered unchanged: the state and the
    /// reason both agree.
    pub fn same(&self, other: &HostStatus) -> (r: bool)
        ensures
            r == (self@ == other@),
    {
        self.state == other.state && self.reason.eq(&other.reason)
    }

    /// A fresh status with the same value.
    pub fn duplicate(&self) -> (r: HostStatus)
        ensures
            r@ == self@,
    {
        HostStatus { state: self.state, reason: self.reason.clone() }
    }
}

impl Port {
    /// Full structural equality of two ports, the service name included.
    pub fn same(&self, other: &Port) -> (r: bool)
        ensures
            r == (self@ == other@),
    {
        let service_same = match (&self.service_info, &other.service_info) {
            (Option::Some(a), Option::Some(b)) => a.name.eq(&b.name),
            (Option::None, Option::None) => true,
            _ => false,
        };
        self.protocol == other.protocol && self.port_number == other.port_number
            && self.status.state == other.status.state && self.status.reason.eq(
            &other.status.reason,
        ) && service_same
    }

    /// A fresh port with the same value.
    pub fn duplicate(&self) -> (r: Port)
        ensures
            r@ == self@,
    {
        Port {
            protocol: self.protocol,
            port_number: self.port_number,
            status: PortStatus {
                state: self.status.state,
                reason: self.status.reason.clone(),
            },
            service_info: match &self.service_info {
                Option::Some(s) => Option::Some(ServiceInfo { name: s.name.clone() }),
                Option::None => Option::None,
            },
        }
    }
}

/// A fresh vector of ports with the same values in the same order.
pub fn duplicate_ports(v: &Vec<Port>) -> (r: Vec<Port>)
    ensures
        r@.map_values(|p: Port| p@) == v@.map_values(|p: Port| p@),
{
    let mut r: Vec<Port> = Vec::new();
    let mut i: usize = 0;
    while i < v.len()
        invariant
            i <= v.len(),
            r@.len() == i,
            forall|k: int| 0 <= k < i ==> r@[k]@ == v@[k]@,
        decreases v.len() - i,
    {
        r.push(v[i].duplicate());
        i = i + 1;
    }
    assert(r@.map_values(|p: Port| p@) =~= v@.map_values(|p: Port| p@));
    r
}

/// A fresh vector of addresses with the same values in the same order.
pub fn duplicate_addresses(v: &Vec<Address>) -> (r: Vec<Address>)
    ensures
        r@.map_values(|a: Address| a@) == v@.map_values(|a: Address| a@),
{
    let mut r: Vec<Address> = Vec::new();
    let mut i: usize = 0;
    while i < v.len()
        invariant
            i <= v.len(),
            r@.len() == i,
            forall|k: int| 0 <= k < i ==> r@[k]@ == v@[k]@,
        decreases v.len() - i,
    {
        r.push(v[i].duplicate());
        i = i + 1;
    }
    assert(r@.map_values(|a: Address| a@) =~= v@.map_values(|a: Address| a@));
    r
}

/// A fresh vector of hostnames with the same values in the same order.
pub fn duplicate_hostnames(v: &Vec<Hostname>) -> (r: Vec<Hostname>)
    ensures
        r@.map_values(|h: Hostname| h@) == v@.map_values(|h: Hostname| h@),
{
    let mut r: Vec<Hostname> = Vec::new();
    let mut i: usize = 0;
    while i < v.len()
        invariant
            i <= v.len(),
            r@.len() == i,
            forall|k: int| 0 <= k < i ==> r@[k]@ == v@[k]@,
        decreases v.len() - i,
    {
        r.push(v[i].duplicate());
        i = i + 1;
    }
    assert(r@.map_values(|h: Hostname| h@) =~= v@.map_values(|h: Hostname| h@));
    r
}

/// The text form of an address: the underlying string, whatever its kind.
pub open spec fn address_text(a: AddressView) -> Seq<char> {
    match a {
        AddressView::Ip(s) => s,
        AddressView::Mac(s) => s,
    }
}

/// The human label of a host: its first hostname and its first address,
/// with placeholders where a list is empty.
pub open spec fn title_view(h: HostView) -> Seq<char> {
    (if h.hostnames.len() > 0 {
        h.hostnames[0]
    } else {
        "<no hostname>"@
    }) + " ("@ + (if h.addresses.len() > 0 {
        address_text(h.addresses[0])
    } else {
        "<no address>"@
    }) + ")"@
}

impl Host {
    /// The label under which this host is reported: first hostname (or a
    /// placeholder), then first address (or a placeholder) in parentheses.
    pub fn get_title(&self) -> (r: String)
        ensures
            r@ == title_view(self@),
    {
        let mut t: String = if self.hostnames.len() > 0 {
            self.hostnames[0].name.clone()
        } else {
            "<no hostname>".to_owned()
        };
        t.append(" (");
        let a: String = if self.addresses.len() > 0 {
            match &self.addresses[0] {
                Address::Ip(x) => x.clone(),
                Address::Mac(x) => x.clone(),
            }
        } else {
            "<no address>".to_owned()
        };
        t.append(a.as_str());
        t.append(")");
        t
    }

    /// A fresh host with the same value.
    pub fn duplicate(&self) -> (r: Host)
        ensures
            r@ == self@,
    {
        let r = Host {
            status: self.status.duplicate(),
            ports: duplicate_ports(&self.ports),
            addresses: duplicate_addresses(&self.addresses),
            hostnames: duplicate_hostnames(&self.hostnames),
        };
        r
    }
}

} // verus!
