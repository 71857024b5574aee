//! The families, types, protocols, options and shutdown directions of
//! sockets, and the numbers that stand for them.

use vstd::prelude::*;
use vstd::std_specs::convert::FromSpecImpl;

verus! {

/// The number that stands for a shutdown direction.
#[allow(non_camel_case_types)]
pub type apr_shutdown_how_e = u32;

/// Socket address family
#[derive(Debug, Clone, Copy, PartialEq, Eq, Structural)]
pub enum SocketFamily {
    /// IPv4
    Inet,
    /// IPv6
    Inet6,
    /// Unix domain socket
    Unix,
}

/// The number of each family.
pub open spec fn family_code(f: SocketFamily) -> i32 {
    match f {
        SocketFamily::Inet => 2,
        SocketFamily::Inet6 => 10,
        SocketFamily::Unix => 1,
    }
}

impl From<SocketFamily> for i32 {
    fn from(family: SocketFamily) -> (r: Self) {
        match family {
            SocketFamily::Inet => 2,
            SocketFamily::Inet6 => 10,
            SocketFamily::Unix => 1,
        }
    }
}

impl FromSpecImpl<SocketFamily> for i32 {
    open spec fn obeys_from_spec() -> bool {
        true
    }

    open spec fn from_spec(v: SocketFamily) -> Self {
        family_code(v)
    }
}

/// Socket type
#[derive(Debug, Clone, Copy, PartialEq, Eq, Structural)]
pub enum SocketType {
    /// Stream socket (TCP)
    Stream,
    /// Datagram socket (UDP)
    Dgram,
}

/// The number of each socket type.
pub open spec fn socket_type_code(t: SocketType) -> i32 {
    match t {
        SocketType::Stream => 1,
        SocketType::Dgram => 2,
    }
}

impl From<SocketType> for i32 {
    fn from(sock_type: SocketType) -> (r: Self) {
        match sock_type {
            SocketType::Stream => 1,
            SocketType::Dgram => 2,
        }
    }
}

impl FromSpecImpl<SocketType> for i32 {
    open spec fn obeys_from_spec() -> bool {
        true
    }

    open spec fn from_spec(v: SocketType) -> Self {
        socket_type_code(v)
    }
}

/// Socket protocol
#[derive(Debug, Clone, Copy, PartialEq, Eq, Structural)]
pub enum SocketProtocol {
    /// TCP protocol
    Tcp,
    /// UDP protocol
    Udp,
}

/// The number of each protocol.
pub open spec fn protocol_code(p: SocketProtocol) -> i32 {
    match p {
        SocketProtocol::Tcp => 6,
        SocketProtocol::Udp => 17,
    }
}

impl From<SocketProtocol> for i32 {
    fn from(protocol: SocketProtocol) -> (r: Self) {
        match protocol {
            SocketProtocol::Tcp => 6,
            SocketProtocol::Udp => 17,
        }
    }
}

impl FromSpecImpl<SocketProtocol> for i32 {
    open spec fn obeys_from_spec() -> bool {
        true
    }

    open spec fn from_spec(v: SocketProtocol) -> Self {
        protocol_code(v)
    }
}

/// Socket options
#[derive(Debug, Clone, Copy, PartialEq, Eq, Structural)]
pub enum SocketOption {
    /// Linger on close
    Linger,
    /// Keep connection alive
    KeepAlive,
    /// Enable debugging
    Debug,
    /// Non-blocking mode
    NonBlock,
    /// Reuse address
    ReuseAddr,
    /// Send buffer size
    Sndbuf,
    /// Receive buffer size
    Rcvbuf,
    /// Disconnect on reset
    DisconnectOnReset,
}

/// The bit of each option.
pub open spec fn option_code(o: SocketOption) -> i32 {
    match o {
        SocketOption::Linger => 1,
        SocketOption::KeepAlive => 2,
        SocketOption::Debug => 4,
        SocketOption::NonBlock => 8,
        SocketOption::ReuseAddr => 16,
        SocketOption::Sndbuf => 64,
        SocketOption::Rcvbuf => 128,
        SocketOption::DisconnectOnReset => 256,
    }
}

impl From<SocketOption> for i32 {
    fn from(opt: SocketOption) -> (r: Self) {
        match opt {
            SocketOption::Linger => 1,
            SocketOption::KeepAlive => 2,
            SocketOption::Debug => 4,
            SocketOption::NonBlock => 8,
            SocketOption::ReuseAddr => 16,
            SocketOption::Sndbuf => 64,
            SocketOption::Rcvbuf => 128,
            SocketOption::DisconnectOnReset => 256,
        }
    }
}

impl FromSpecImpl<SocketOption> for i32 {
    open spec fn obeys_from_spec() -> bool {
        true
    }

    open spec fn from_spec(v: SocketOption) -> Self {
        option_code(v)
    }
}

/// Socket shutdown options
#[derive(Debug, Clone, Copy, PartialEq, Eq, Structural)]
pub enum SocketShutdown {
    /// Shutdown reading
    Read,
    /// Shutdown writing
    Write,
    /// Shutdown both reading and writing
    Both,
}

/// The number of each shutdown direction.
pub open spec fn shutdown_code(s: SocketShutdown) -> u32 {
    match s {
        SocketShutdown::Read => 0,
        SocketShutdown::Write => 1,
        SocketShutdown::Both => 2,
    }
}

impl From<SocketShutdown> for apr_shutdown_how_e {
    fn from(how: SocketShutdown) -> (r: Self) {
        match how {
            SocketShutdown::Read => 0,
            SocketShutdown::Write => 1,
            SocketShutdown::Both => 2,
        }
    }
}

impl FromSpecImpl<SocketShutdown> for apr_shutdown_how_e {
    open spec fn obeys_from_spec() -> bool {
        true
    }

    open spec fn from_spec(v: SocketShutdown) -> Self {
        shutdown_code(v)
    }
}

/// The options are distinct bits.
pub proof fn law_option_bits(a: SocketOption, b: SocketOption)
    ensures
        option_code(a) == option_code(b) <==> a == b,
        option_code(a) > 0,
{
}

} // verus!
