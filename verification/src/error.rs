use vstd::prelude::*;

verus! {

/// The error that `url::Url::parse` reports. Nothing of its inside is read
/// here: a value is only carried from the parser to the caller.
#[verifier::external_type_specification]
#[verifier::external_body]
pub struct ExUrlParseError(url::ParseError);

/// Why one connection was given up. Every kind ends the connection it arose
/// on and no other.
#[derive(Debug, PartialEq, Eq)]
pub enum ProxyError {
    /// The relay refused or broke the SOCKS5 negotiation.
    Socks(String),
    /// The handshake was not read within the configured deadline.
    Timeout,
    /// No forwarding rule matches the host name that is carried.
    NoMatch(String),
    /// Reading, writing or dialing failed.
    IO(String),
    /// The first bytes are no TLS record that can be read.
    ParseError,
    /// The stream ended before a whole record had arrived.
    IncompleteHandshake,
    /// The record holds no handshake message, or one that is no ClientHello.
    NotClientHello,
    /// The ClientHello ends without an extensions block.
    NoExtensions,
    /// The ClientHello has extensions, but none for the server name.
    MissingSNI,
    /// The server-name extension lists no entry of the host-name type.
    MissingHostName,
    /// The host name is not valid UTF-8.
    InvalidHostnameEncoding,
    /// The destination is this proxy itself.
    InfiniteLoop,
}

/// Why a transport descriptor of the configuration was refused.
#[derive(Debug, PartialEq, Eq)]
pub enum ProxyTransportError {
    /// The descriptor is neither `direct` nor a URL.
    Url(url::ParseError),
    /// The URL names no host, or its host could not be resolved.
    IO(String),
    /// The URL's scheme, which is carried, selects no transport.
    UnsupportedScheme(String),
}

/// A `ProxyError` with its texts as sequences of characters.
pub enum ProxyErrorView {
    Socks(Seq<char>),
    Timeout,
    NoMatch(Seq<char>),
    IO(Seq<char>),
    ParseError,
    IncompleteHandshake,
    NotClientHello,
    NoExtensions,
    MissingSNI,
    MissingHostName,
    InvalidHostnameEncoding,
    InfiniteLoop,
}

impl View for ProxyError {
    type V = ProxyErrorView;

    open spec fn view(&self) -> ProxyErrorView {
        match *self {
            ProxyError::Socks(m) => ProxyErrorView::Socks(m@),
            ProxyError::Timeout => ProxyErrorView::Timeout,
            ProxyError::NoMatch(host) => ProxyErrorView::NoMatch(host@),
            ProxyError::IO(m) => ProxyErrorView::IO(m@),
            ProxyError::ParseError => ProxyErrorView::ParseError,
            ProxyError::IncompleteHandshake => ProxyErrorView::IncompleteHandshake,
            ProxyError::NotClientHello => ProxyErrorView::NotClientHello,
            ProxyError::NoExtensions => ProxyErrorView::NoExtensions,
            ProxyError::MissingSNI => ProxyErrorView::MissingSNI,
            ProxyError::MissingHostName => ProxyErrorView::MissingHostName,
            ProxyError::InvalidHostnameEncoding => ProxyErrorView::InvalidHostnameEncoding,
            ProxyError::InfiniteLoop => ProxyErrorView::InfiniteLoop,
        }
    }
}

/// A `ProxyTransportError` with its texts as sequences of characters.
pub enum TransportErrorView {
    Url(url::ParseError),
    IO(Seq<char>),
    UnsupportedScheme(Seq<char>),
}

impl View for ProxyTransportError {
    type V = TransportErrorView;

    open spec fn view(&self) -> TransportErrorView {
        match *self {
            ProxyTransportError::Url(e) => TransportErrorView::Url(e),
            ProxyTransportError::IO(m) => TransportErrorView::IO(m@),
            ProxyTransportError::UnsupportedScheme(s) => TransportErrorView::UnsupportedScheme(s@),
        }
    }
}

} // verus!
