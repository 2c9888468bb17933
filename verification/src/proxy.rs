use vstd::prelude::*;
use vstd::string::StringExecFns;
use vstd::utf8::encode_utf8;
use crate::error::{ProxyError, ProxyErrorView, ProxyTransportError, TransportErrorView};

verus! {

/// The port that every upstream host is dialed on.
pub const UPSTREAM_PORT: u16 = 443;

/// The port of a SOCKS5 relay whose URL names none.
pub const DEFAULT_RELAY_PORT: u16 = 1080;

/// An IP address as a number: the four bytes of an IPv4 address, or the
/// sixteen of an IPv6 address, most significant first.
#[derive(Clone, Copy, Debug, PartialEq, Eq, Structural)]
pub enum IpAddress {
    V4(u32),
    V6(u128),
}

/// An address that a TCP connection can be opened to.
#[derive(Clone, Copy, Debug, PartialEq, Eq, Structural)]
pub struct SocketAddress {
    pub ip: IpAddress,
    pub port: u16,
}

/// Marks a byte stream that can be read and written, and so can serve as the
/// upstream leg of a relayed connection.
pub trait ProxyStream {

}

/// Tells whether two texts are the same, character by character.
pub fn same_text(a: &str, b: &str) -> (same: bool)
    ensures
        same == (a@ == b@),
{
    let x = a.as_bytes();
    let y = b.as_bytes();
    proof {
        vstd::utf8::encode_utf8_decode_utf8(a@);
        vstd::utf8::encode_utf8_decode_utf8(b@);
    }
    if x.len() != y.len() {
        return false;
    }
    let mut i: usize = 0;
    while i < x.len()
        invariant
            i <= x@.len(),
            x@.len() == y@.len(),
            x@ == encode_utf8(a@),
            y@ == encode_utf8(b@),
            forall|j: int| 0 <= j < i ==> x@[j] == y@[j],
        decreases x@.len() - i,
    {
        if x[i] != y[i] {
            return false;
        }
        i += 1;
    }
    assert(x@ =~= y@);
    true
}

/// The host of a URL.
#[derive(Debug, PartialEq, Eq)]
pub enum UrlHost {
    /// The URL names no host.
    Absent,
    /// A domain name.
    Domain(String),
    /// An IPv4 address, as a number.
    Ipv4(u32),
    /// An IPv6 address, as a number.
    Ipv6(u128),
}

/// What of a URL selects a transport.
#[derive(Debug, PartialEq, Eq)]
pub struct UrlParts {
    pub scheme: String,
    pub host: UrlHost,
    /// The port that the URL names, or the one that its scheme is known for.
    pub port: Option<u16>,
}

/// A `UrlHost` with its text as a sequence of characters.
pub enum UrlHostView {
    Absent,
    Domain(Seq<char>),
    Ipv4(u32),
    Ipv6(u128),
}

/// A `UrlParts` with its texts as sequences of characters.
pub struct UrlPartsView {
    pub scheme: Seq<char>,
    pub host: UrlHostView,
    pub port: Option<u16>,
}

impl View for UrlHost {
    type V = UrlHostView;

    open spec fn view(&self) -> UrlHostView {
        match *self {
            UrlHost::Absent => UrlHostView::Absent,
            UrlHost::Domain(name) => UrlHostView::Domain(name@),
            UrlHost::Ipv4(ip) => UrlHostView::Ipv4(ip),
            UrlHost::Ipv6(ip) => UrlHostView::Ipv6(ip),
        }
    }
}

impl View for UrlParts {
    type V = UrlPartsView;

    open spec fn view(&self) -> UrlPartsView {
        UrlPartsView { scheme: self.scheme@, host: self.host@, port: self.port }
    }
}

/// What `url::Url::parse` makes of a text: the parts of the URL that it is,
/// or the reason why it is none.
pub uninterp spec fn parsed_url(text: Seq<char>) -> Result<UrlPartsView, url::ParseError>;

/// Parses `text` with `url::Url::parse` and reads off the result what selects
/// a transport: `Url::scheme`, `Url::host` and `Url::port_or_known_default`.
/// Nothing is claimed of the parts but that they are those of this text.
#[verifier::external_body]
pub(crate) fn parse_url(text: &str) -> (parsed: Result<UrlParts, url::ParseError>)
    ensures
        match parsed {
            Ok(parts) => parsed_url(text@) == Ok::<UrlPartsView, url::ParseError>(parts@),
            Err(e) => parsed_url(text@) == Err::<UrlPartsView, url::ParseError>(e),
        },
{
    match url::Url::parse(text) {
        Ok(u) => Ok(
            UrlParts {
                scheme: u.scheme().to_string(),
                host: match u.host() {
                    None => UrlHost::Absent,
                    Some(url::Host::Domain(name)) => UrlHost::Domain(name.to_string()),
                    Some(url::Host::Ipv4(ip)) => UrlHost::Ipv4(u32::from(ip)),
                    Some(url::Host::Ipv6(ip)) => UrlHost::Ipv6(u128::from(ip)),
                },
                port: u.port_or_known_default(),
            },
        ),
        Err(e) => Err(e),
    }
}

/// Where a SOCKS5 relay is to be found, as its URL names it.
#[derive(Debug, PartialEq, Eq)]
pub enum RelayHost {
    /// By a name that is still to be looked up.
    Domain(String),
    /// At an address.
    Ip(IpAddress),
}

/// A `RelayHost` with its name as a sequence of characters.
pub enum RelayHostView {
    Domain(Seq<char>),
    Ip(IpAddress),
}

impl View for RelayHost {
    type V = RelayHostView;

    open spec fn view(&self) -> RelayHostView {
        match *self {
            RelayHost::Domain(name) => RelayHostView::Domain(name@),
            RelayHost::Ip(ip) => RelayHostView::Ip(ip),
        }
    }
}

/// What a transport descriptor of the configuration says, before any name in
/// it is looked up.
#[derive(Debug, PartialEq, Eq)]
pub enum TransportDescriptor {
    /// The literal `direct`.
    Direct,
    /// A SOCKS5 relay at this host and port.
    Socks5 { host: RelayHost, port: u16 },
}

/// A `TransportDescriptor` with its texts as sequences of characters.
pub enum TransportDescriptorView {
    Direct,
    Socks5 { host: RelayHostView, port: u16 },
}

impl View for TransportDescriptor {
    type V = TransportDescriptorView;

    open spec fn view(&self) -> TransportDescriptorView {
        match *self {
            TransportDescriptor::Direct => TransportDescriptorView::Direct,
            TransportDescriptor::Socks5 { host, port } => TransportDescriptorView::Socks5 {
                host: host@,
                port,
            },
        }
    }
}

/// Whether a URL scheme selects the SOCKS5 transport.
pub open spec fn is_socks_scheme(scheme: Seq<char>) -> bool {
    scheme == "socks"@ || scheme == "socks5"@ || scheme == "socks5h"@
}

/// The transport that a URL selects. Only the SOCKS schemes select one, and
/// the URL must then name a host; a port that it does not name is
/// `DEFAULT_RELAY_PORT`.
pub open spec fn transport_of_url(url: UrlPartsView) -> Result<
    TransportDescriptorView,
    TransportErrorView,
> {
    if !is_socks_scheme(url.scheme) {
        Err(TransportErrorView::UnsupportedScheme(url.scheme))
    } else {
        let port = match url.port {
            Some(p) => p,
            None => DEFAULT_RELAY_PORT,
        };
        match url.host {
            UrlHostView::Absent => Err(TransportErrorView::IO("No host name in the URL"@)),
            UrlHostView::Domain(name) => Ok(
                TransportDescriptorView::Socks5 { host: RelayHostView::Domain(name), port },
            ),
            UrlHostView::Ipv4(ip) => Ok(
                TransportDescriptorView::Socks5 {
                    host: RelayHostView::Ip(IpAddress::V4(ip)),
                    port,
                },
            ),
            UrlHostView::Ipv6(ip) => Ok(
                TransportDescriptorView::Socks5 {
                    host: RelayHostView::Ip(IpAddress::V6(ip)),
                    port,
                },
            ),
        }
    }
}

/// The transport that a descriptor of the configuration selects: `direct`
/// itself, or else what the URL that the text is selects.
pub open spec fn transport_of_text(text: Seq<char>) -> Result<
    TransportDescriptorView,
    TransportErrorView,
> {
    if text == "direct"@ {
        Ok(TransportDescriptorView::Direct)
    } else {
        match parsed_url(text) {
            Err(e) => Err(TransportErrorView::Url(e)),
            Ok(url) => transport_of_url(url),
        }
    }
}

impl TransportDescriptor {
    /// Tells what is still to be looked up before the transport can be used:
    /// the relay's name with its port, where the relay is given by name.
    pub fn lookup(&self) -> (wanted: Option<(&str, u16)>)
        ensures
            match wanted {
                Some((name, port)) => self@ == (TransportDescriptorView::Socks5 {
                    host: RelayHostView::Domain(name@),
                    port,
                }),
                None => self@ is Direct || self@->Socks5_host is Ip,
            },
    {
        match self {
            TransportDescriptor::Socks5 { host: RelayHost::Domain(name), port } => Some(
                (name.as_str(), *port),
            ),
            _ => None,
        }
    }
}

/// The addresses at which a relay that is given by name is reached: each
/// address that its name was resolved to, in that order, with the port that
/// the descriptor names.
pub open spec fn relay_addresses(looked_up: Seq<IpAddress>, port: u16) -> Seq<SocketAddress> {
    Seq::new(looked_up.len(), |i: int| SocketAddress { ip: looked_up[i], port })
}

/// The relay addresses of the transport that a descriptor stands for,
/// `looked_up` being the addresses that the relay's name was resolved to,
/// where it is given by name. A relay that is given by address is reached at
/// that one address, whatever was looked up; one whose name has no address
/// is refused. The port is always the descriptor's.
pub open spec fn transport_of_descriptor(
    descriptor: TransportDescriptorView,
    looked_up: Seq<IpAddress>,
) -> Result<Seq<SocketAddress>, TransportErrorView> {
    match descriptor {
        TransportDescriptorView::Direct => Ok(Seq::empty()),
        TransportDescriptorView::Socks5 { host: RelayHostView::Ip(ip), port } => Ok(
            seq![SocketAddress { ip, port }],
        ),
        TransportDescriptorView::Socks5 { host: RelayHostView::Domain(_), port } => {
            if looked_up.len() > 0 {
                Ok(relay_addresses(looked_up, port))
            } else {
                Err(TransportErrorView::IO("No address for the relay's host name"@))
            }
        },
    }
}

/// Whether a result is the one that the rules for descriptors name.
pub open spec fn describes(
    got: Result<TransportDescriptor, ProxyTransportError>,
    want: Result<TransportDescriptorView, TransportErrorView>,
) -> bool {
    match (got, want) {
        (Ok(g), Ok(w)) => g@ == w,
        (Err(g), Err(w)) => g@ == w,
        _ => false,
    }
}

/// One way of reaching an upstream host.
#[derive(Debug, PartialEq, Eq)]
pub enum ProxyTransport {
    /// Dial the requested host itself.
    Direct,
    /// Ask the SOCKS5 relay at one of these addresses to dial it.
    Socks5(Vec<SocketAddress>),
}

/// What is to be done to reach an upstream host.
#[derive(Debug, PartialEq, Eq)]
pub enum DialPlan {
    /// Open a TCP connection to `host` on `port`.
    Tcp { host: String, port: u16 },
    /// Connect to the first of `relays` that answers and ask it for a
    /// connection to `host` on `port`.
    Socks5 { relays: Vec<SocketAddress>, host: String, port: u16 },
}

/// A `DialPlan` with its texts as sequences of characters.
pub enum DialPlanView {
    Tcp { host: Seq<char>, port: u16 },
    Socks5 { relays: Seq<SocketAddress>, host: Seq<char>, port: u16 },
}

impl View for DialPlan {
    type V = DialPlanView;

    open spec fn view(&self) -> DialPlanView {
        match *self {
            DialPlan::Tcp { host, port } => DialPlanView::Tcp { host: host@, port },
            DialPlan::Socks5 { relays, host, port } => DialPlanView::Socks5 {
                relays: relays@,
                host: host@,
                port,
            },
        }
    }
}

/// Whether dialing `host` would lead back to this proxy.
pub open spec fn is_loop_target(host: Seq<char>) -> bool {
    host == "localhost"@
}

fn copy_addresses(from: &Vec<SocketAddress>) -> (copy: Vec<SocketAddress>)
    ensures
        copy@ == from@,
{
    let mut copy: Vec<SocketAddress> = Vec::new();
    let mut i: usize = 0;
    while i < from.len()
        invariant
            i <= from@.len(),
            copy@ == from@.subrange(0, i as int),
        decreases from@.len() - i,
    {
        copy.push(from[i]);
        i += 1;
        assert(copy@ =~= from@.subrange(0, i as int));
    }
    assert(from@.subrange(0, from@.len() as int) =~= from@);
    copy
}

/// What the descriptor of a relay leads to, from the text of the
/// configuration to the addresses that are dialed: at least one address,
/// each with the port that the URL names, or `DEFAULT_RELAY_PORT` where it
/// names none; and for a relay given by address, that address alone.
pub proof fn lemma_relay_addresses_carry_the_port(text: Seq<char>, looked_up: Seq<IpAddress>)
    requires
        transport_of_text(text) is Ok,
        transport_of_text(text)->Ok_0 is Socks5,
        transport_of_descriptor(transport_of_text(text)->Ok_0, looked_up) is Ok,
    ensures
        parsed_url(text) is Ok,
        ({
            let url = parsed_url(text)->Ok_0;
            let port = match url.port {
                Some(p) => p,
                None => DEFAULT_RELAY_PORT,
            };
            let relays = transport_of_descriptor(transport_of_text(text)->Ok_0, looked_up)->Ok_0;
            &&& relays.len() >= 1
            &&& forall|i: int| 0 <= i < relays.len() ==> (#[trigger] relays[i]).port == port
            &&& url.host matches UrlHostView::Ipv4(ip) ==> relays == seq![
                SocketAddress { ip: IpAddress::V4(ip), port },
            ]
            &&& url.host matches UrlHostView::Ipv6(ip) ==> relays == seq![
                SocketAddress { ip: IpAddress::V6(ip), port },
            ]
            &&& url.host is Domain ==> relays == relay_addresses(looked_up, port)
        }),
{
}

impl ProxyTransport {
    /// A relay transport is usable when it has an address to connect to.
    pub open spec fn well_formed(&self) -> bool {
        match *self {
            ProxyTransport::Direct => true,
            ProxyTransport::Socks5(relays) => relays@.len() > 0,
        }
    }

    /// The plan by which this transport reaches `host`: the host that the
    /// client asked for, on `UPSTREAM_PORT`, dialed directly or through the
    /// relay.
    pub open spec fn plan_for(&self, host: Seq<char>) -> DialPlanView {
        match *self {
            ProxyTransport::Direct => DialPlanView::Tcp { host, port: UPSTREAM_PORT },
            ProxyTransport::Socks5(relays) => DialPlanView::Socks5 {
                relays: relays@,
                host,
                port: UPSTREAM_PORT,
            },
        }
    }

    /// Says how `hostname` is to be reached through this transport, or
    /// refuses with `InfiniteLoop` where that would lead back to the proxy.
    /// Nothing is dialed here: the plan is for the caller to carry out.
    pub fn connect(&self, hostname: &str) -> (plan: Result<DialPlan, ProxyError>)
        ensures
            is_loop_target(hostname@) ==> plan is Err && plan.unwrap_err()@
                == ProxyErrorView::InfiniteLoop,
            !is_loop_target(hostname@) ==> plan is Ok && plan.unwrap()@ == self.plan_for(
                hostname@,
            ),
    {
        if same_text(hostname, "localhost") {
            Err(ProxyError::InfiniteLoop)
        } else {
            Ok(
                match self {
                    ProxyTransport::Direct => DialPlan::Tcp {
                        host: String::from_str(hostname),
                        port: UPSTREAM_PORT,
                    },
                    ProxyTransport::Socks5(relays) => DialPlan::Socks5 {
                        relays: copy_addresses(relays),
                        host: String::from_str(hostname),
                        port: UPSTREAM_PORT,
                    },
                },
            )
        }
    }

    /// Makes the transport that `descriptor` stands for. Where the relay is
    /// given by name, `looked_up` holds the addresses that the name was
    /// resolved to; else it is not read. Every address of a relay gets the
    /// descriptor's port.
    pub fn from_descriptor(descriptor: TransportDescriptor, looked_up: Vec<IpAddress>) -> (made:
        Result<ProxyTransport, ProxyTransportError>)
        ensures
            match (made, transport_of_descriptor(descriptor@, looked_up@)) {
                (Ok(ProxyTransport::Direct), Ok(_)) => descriptor@ is Direct,
                (Ok(ProxyTransport::Socks5(relays)), Ok(addrs)) => descriptor@ is Socks5 && relays@
                    == addrs,
                (Err(e), Err(f)) => e@ == f,
                _ => false,
            },
            made is Ok ==> made.unwrap().well_formed(),
    {
        match descriptor {
            TransportDescriptor::Direct => Ok(ProxyTransport::Direct),
            TransportDescriptor::Socks5 { host: RelayHost::Ip(ip), port } => {
                let mut relays: Vec<SocketAddress> = Vec::new();
                relays.push(SocketAddress { ip, port });
                assert(relays@ =~= seq![SocketAddress { ip, port }]);
                Ok(ProxyTransport::Socks5(relays))
            },
            TransportDescriptor::Socks5 { host: RelayHost::Domain(_), port } => {
                if looked_up.len() > 0 {
                    let mut relays: Vec<SocketAddress> = Vec::new();
                    let mut i: usize = 0;
                    while i < looked_up.len()
                        invariant
                            i <= looked_up@.len(),
                            relays@ == relay_addresses(looked_up@.subrange(0, i as int), port),
                        decreases looked_up@.len() - i,
                    {
                        relays.push(SocketAddress { ip: looked_up[i], port });
                        i += 1;
                        assert(relays@ =~= relay_addresses(
                            looked_up@.subrange(0, i as int),
                            port,
                        ));
                    }
                    assert(looked_up@.subrange(0, looked_up@.len() as int) =~= looked_up@);
                    Ok(ProxyTransport::Socks5(relays))
                } else {
                    Err(
                        ProxyTransportError::IO(
                            String::from_str("No address for the relay's host name"),
                        ),
                    )
                }
            },
        }
    }

    /// Selects the transport that a parsed URL stands for.
    pub fn try_from(value: UrlParts) -> (selected: Result<
        TransportDescriptor,
        ProxyTransportError,
    >)
        ensures
            describes(selected, transport_of_url(value@)),
    {
        let UrlParts { scheme, host, port } = value;
        if same_text(scheme.as_str(), "socks") || same_text(scheme.as_str(), "socks5") || same_text(
            scheme.as_str(),
            "socks5h",
        ) {
            let port: u16 = match port {
                Some(p) => p,
                None => DEFAULT_RELAY_PORT,
            };
            match host {
                UrlHost::Absent => Err(
                    ProxyTransportError::IO(String::from_str("No host name in the URL")),
                ),
                UrlHost::Domain(name) => Ok(
                    TransportDescriptor::Socks5 { host: RelayHost::Domain(name), port },
                ),
                UrlHost::Ipv4(ip) => Ok(
                    TransportDescriptor::Socks5 { host: RelayHost::Ip(IpAddress::V4(ip)), port },
                ),
                UrlHost::Ipv6(ip) => Ok(
                    TransportDescriptor::Socks5 { host: RelayHost::Ip(IpAddress::V6(ip)), port },
                ),
            }
        } else {
            Err(ProxyTransportError::UnsupportedScheme(scheme))
        }
    }

    /// Reads a transport descriptor of the configuration: the literal
    /// `direct`, or the URL of a SOCKS5 relay.
    pub fn from_str(s: &str) -> (selected: Result<TransportDescriptor, ProxyTransportError>)
        ensures
            describes(selected, transport_of_text(s@)),
    {
        if same_text(s, "direct") {
            Ok(TransportDescriptor::Direct)
        } else {
            match parse_url(s) {
                Err(e) => Err(ProxyTransportError::Url(e)),
                Ok(parts) => ProxyTransport::try_from(parts),
            }
        }
    }
}

} // verus!
