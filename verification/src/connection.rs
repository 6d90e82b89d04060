//! The connection that a request came by.
use vstd::prelude::*;
use std::sync::Arc;
use crate::ip::IpAddr;

verus! {

/// An IP address and a port.
#[derive(Clone, Copy, PartialEq, Eq, Debug)]
pub struct SocketAddr {
    pub ip: IpAddr,
    pub port: u16,
}

/// One end of a connection.
#[derive(Debug)]
pub enum Endpoint {
    Tcp(SocketAddr),
    Quic(SocketAddr),
    Unix(String),
    Tls(Box<Endpoint>),
}

/// The socket address of an endpoint, if it has one.
pub open spec fn endpoint_addr(e: Endpoint) -> Option<SocketAddr>
    decreases e,
{
    match e {
        Endpoint::Tcp(addr) | Endpoint::Quic(addr) => Some(addr),
        Endpoint::Unix(_) => None,
        Endpoint::Tls(inner) => endpoint_addr(*inner),
    }
}

/// The socket address of an endpoint reached over TCP.
pub open spec fn endpoint_tcp(e: Endpoint) -> Option<SocketAddr>
    decreases e,
{
    match e {
        Endpoint::Tcp(addr) => Some(addr),
        Endpoint::Quic(_) | Endpoint::Unix(_) => None,
        Endpoint::Tls(inner) => endpoint_tcp(*inner),
    }
}

/// The IP address of an endpoint, if it has one.
pub open spec fn endpoint_ip(e: Endpoint) -> Option<IpAddr> {
    match endpoint_addr(e) {
        Some(addr) => Some(addr.ip),
        None => None,
    }
}

/// An endpoint that is reached by TCP or QUIC has the address of its socket, one that is a file of the
/// machine has none, and TLS makes no difference. Only TCP counts as TCP.
pub proof fn law_endpoint(addr: SocketAddr, path: String, inner: Endpoint)
    ensures
        endpoint_ip(Endpoint::Tcp(addr)) == Some(addr.ip),
        endpoint_ip(Endpoint::Quic(addr)) == Some(addr.ip),
        endpoint_ip(Endpoint::Unix(path)) is None,
        endpoint_ip(Endpoint::Tls(Box::new(inner))) == endpoint_ip(inner),
        endpoint_tcp(Endpoint::Tcp(addr)) == Some(addr),
        endpoint_tcp(Endpoint::Quic(addr)) is None,
        endpoint_tcp(Endpoint::Unix(path)) is None,
        endpoint_tcp(Endpoint::Tls(Box::new(inner))) == endpoint_tcp(inner),
{
}

impl Clone for Endpoint {
    fn clone(&self) -> (r: Endpoint)
        ensures
            r == *self,
        decreases self,
    {
        match self {
            Endpoint::Tcp(addr) => Endpoint::Tcp(*addr),
            Endpoint::Quic(addr) => Endpoint::Quic(*addr),
            Endpoint::Unix(path) => Endpoint::Unix(path.clone()),
            Endpoint::Tls(inner) => Endpoint::Tls(Box::new((&**inner).clone())),
        }
    }
}

impl Endpoint {
    /// The socket address, if the endpoint is reached over TCP.
    pub fn tcp(&self) -> (r: Option<SocketAddr>)
        ensures
            r == endpoint_tcp(*self),
        decreases self,
    {
        match self {
            Endpoint::Tcp(addr) => Some(*addr),
            Endpoint::Quic(_) | Endpoint::Unix(_) => None,
            Endpoint::Tls(inner) => inner.tcp(),
        }
    }

    /// The IP address, if the endpoint has one.
    pub fn ip(&self) -> (r: Option<IpAddr>)
        ensures
            r == endpoint_ip(*self),
        decreases self,
    {
        match self {
            Endpoint::Tcp(addr) | Endpoint::Quic(addr) => Some(addr.ip),
            Endpoint::Unix(_) => None,
            Endpoint::Tls(inner) => inner.ip(),
        }
    }
}

/// The certificates that a peer presented, each in its encoded form.
pub struct Certificates {
    pub chain: Vec<Vec<u8>>,
}

/// The error of an input or output operation.
#[verifier::external_type_specification]
#[verifier::external_body]
pub struct ExIoError(std::io::Error);

/// What is known of a connection.
pub struct ConnectionMeta {
    pub peer_endpoint: Option<Endpoint>,
    pub peer_certs: Option<Arc<Certificates>>,
}

impl Clone for ConnectionMeta {
    fn clone(&self) -> (r: ConnectionMeta)
        ensures
            r == *self,
    {
        let peer_endpoint = match &self.peer_endpoint {
            Some(e) => Some(e.clone()),
            None => None,
        };
        let peer_certs = match &self.peer_certs {
            Some(c) => Some(share(c)),
            None => None,
        };
        ConnectionMeta { peer_endpoint, peer_certs }
    }
}

/// `Arc::clone`: another handle to the same certificates.
#[verifier::external_body]
fn share(certs: &Arc<Certificates>) -> (r: Arc<Certificates>)
    ensures
        r == *certs,
{
    Arc::clone(certs)
}

impl Default for ConnectionMeta {
    fn default() -> (r: ConnectionMeta)
        ensures
            r.peer_endpoint is None,
            r.peer_certs is None,
    {
        ConnectionMeta { peer_endpoint: None, peer_certs: None }
    }
}

/// What is known of a connection is the endpoint that could be found out, and the certificates.
pub proof fn law_connection(e: Endpoint, certs: Certificates, known: ConnectionMeta, bare: ConnectionMeta)
    requires
        call_ensures(
            ConnectionMeta::new,
            (Ok::<Endpoint, std::io::Error>(e), Some(certs)),
            known,
        ),
        call_ensures(ConnectionMeta::new, (Ok::<Endpoint, std::io::Error>(e), None), bare),
    ensures
        known.peer_endpoint == Some(e),
        known.peer_certs == Some(Arc::new(certs)),
        bare.peer_endpoint == Some(e),
        bare.peer_certs is None,
{
}

impl ConnectionMeta {
    /// What is known of a connection whose peer has this endpoint, if that could be found out, and
    /// has presented these certificates.
    pub fn new(endpoint: Result<Endpoint, std::io::Error>, certs: Option<Certificates>) -> (r:
        ConnectionMeta)
        ensures
            r.peer_endpoint == (match endpoint {
                Ok(e) => Some(e),
                Err(_) => None,
            }),
            certs matches Some(c) ==> r.peer_certs == Some(Arc::new(c)),
            certs is None ==> r.peer_certs is None,
    {
        let peer_certs = match certs {
            Some(c) => Some(Arc::new(c)),
            None => None,
        };
        ConnectionMeta { peer_endpoint: endpoint.ok(), peer_certs }
    }
}

} // verus!
