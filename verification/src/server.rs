//! Server descriptions for querying Minecraft servers: the address, the
//! timeout and, for Java servers, the query port.
use vstd::prelude::*;

use crate::address::{parse_address_spec, Address};
use crate::error::McStatusError;

verus! {

/// Default number of retry attempts.
pub const DEFAULT_TRIES: usize = 3;

/// The default port of Java Edition servers.
pub const JAVA_DEFAULT_PORT: u16 = 25565;

/// The default port of Bedrock Edition servers.
pub const BEDROCK_DEFAULT_PORT: u16 = 19132;

/// Whether `r` is the address that `address` parses to with the default
/// port, or the matching invalid-address error.
pub open spec fn looked_up(address: Seq<char>, default_port: u16, r: Result<Address, McStatusError>) -> bool {
    match parse_address_spec(address, default_port) {
        Ok((host, port)) => r matches Ok(a) && a.host@ == host && a.port == port,
        Err(msg) => r matches Err(McStatusError::InvalidAddress(m)) && m@ == msg,
    }
}

/// Parses an address for a server, reporting an invalid one as such.
fn lookup_address(address: &str, default_port: u16) -> (r: Result<Address, McStatusError>)
    ensures
        looked_up(address@, default_port, r),
{
    match Address::parse_address(address, default_port) {
        Ok(a) => Ok(a),
        Err(e) => Err(McStatusError::InvalidAddress(e)),
    }
}

/// A Minecraft Java Edition server (1.7+); `D` is the type of the timeout.
#[derive(Debug, Clone)]
pub struct JavaServer<D> {
    pub address: Address,
    pub timeout: D,
    pub query_port: u16,
}

impl<D> JavaServer<D> {
    /// Creates a new `JavaServer`: the port defaults to 25565, the query
    /// port to the port.
    pub fn new(host: &str, port: Option<u16>, timeout: D, query_port: Option<u16>) -> (r: Result<
        Self,
        McStatusError,
    >)
        ensures
            r matches Ok(s) && {
                let p = match port {
                    Some(p) => p,
                    None => JAVA_DEFAULT_PORT,
                };
                &&& s.address.host@ == host@
                &&& s.address.port == p
                &&& s.query_port == (match query_port {
                    Some(q) => q,
                    None => p,
                })
                &&& s.timeout == timeout
            },
    {
        let port = match port {
            Some(p) => p,
            None => JAVA_DEFAULT_PORT,
        };
        let query_port = match query_port {
            Some(q) => q,
            None => port,
        };
        Ok(JavaServer { address: Address::new(host.to_owned(), port), timeout, query_port })
    }

    /// Resolves the server address from `host[:port]` text (port 25565 by
    /// default); the query port is 25565.
    pub fn lookup(address: &str, timeout: D) -> (r: Result<Self, McStatusError>)
        ensures
            looked_up(address@, JAVA_DEFAULT_PORT, match r {
                Ok(s) => Ok(s.address),
                Err(e) => Err(e),
            }),
            r matches Ok(s) ==> s.timeout == timeout && s.query_port == JAVA_DEFAULT_PORT,
    {
        match lookup_address(address, JAVA_DEFAULT_PORT) {
            Ok(a) => Ok(JavaServer { address: a, timeout, query_port: JAVA_DEFAULT_PORT }),
            Err(e) => Err(e),
        }
    }

    /// Returns the server's address.
    pub fn address(&self) -> (a: &Address)
        ensures
            *a == self.address,
    {
        &self.address
    }
}

/// A Minecraft Bedrock Edition server; `D` is the type of the timeout.
#[derive(Debug, Clone)]
pub struct BedrockServer<D> {
    pub address: Address,
    pub timeout: D,
}

impl<D> BedrockServer<D> {
    /// Creates a new `BedrockServer`: the port defaults to 19132.
    pub fn new(host: &str, port: Option<u16>, timeout: D) -> (r: Result<Self, McStatusError>)
        ensures
            r matches Ok(s) && s.address.host@ == host@ && s.address.port == (match port {
                Some(p) => p,
                None => BEDROCK_DEFAULT_PORT,
            }) && s.timeout == timeout,
    {
        let port = match port {
            Some(p) => p,
            None => BEDROCK_DEFAULT_PORT,
        };
        Ok(BedrockServer { address: Address::new(host.to_owned(), port), timeout })
    }

    /// Resolves the server address from `host[:port]` text (port 19132 by
    /// default).
    pub fn lookup(address: &str, timeout: D) -> (r: Result<Self, McStatusError>)
        ensures
            looked_up(address@, BEDROCK_DEFAULT_PORT, match r {
                Ok(s) => Ok(s.address),
                Err(e) => Err(e),
            }),
            r matches Ok(s) ==> s.timeout == timeout,
    {
        match lookup_address(address, BEDROCK_DEFAULT_PORT) {
            Ok(a) => Ok(BedrockServer { address: a, timeout }),
            Err(e) => Err(e),
        }
    }

    /// Returns the server's address.
    pub fn address(&self) -> (a: &Address)
        ensures
            *a == self.address,
    {
        &self.address
    }
}

/// A legacy (pre-1.7) Minecraft Java Edition server; `D` is the type of the
/// timeout.
#[derive(Debug, Clone)]
pub struct LegacyServer<D> {
    pub address: Address,
    pub timeout: D,
}

impl<D> LegacyServer<D> {
    /// Creates a new `LegacyServer`: the port defaults to 25565.
    pub fn new(host: &str, port: Option<u16>, timeout: D) -> (r: Result<Self, McStatusError>)
        ensures
            r matches Ok(s) && s.address.host@ == host@ && s.address.port == (match port {
                Some(p) => p,
                None => JAVA_DEFAULT_PORT,
            }) && s.timeout == timeout,
    {
        let port = match port {
            Some(p) => p,
            None => JAVA_DEFAULT_PORT,
        };
        Ok(LegacyServer { address: Address::new(host.to_owned(), port), timeout })
    }

    /// Resolves the server address from `host[:port]` text (port 25565 by
    /// default).
    pub fn lookup(address: &str, timeout: D) -> (r: Result<Self, McStatusError>)
        ensures
            looked_up(address@, JAVA_DEFAULT_PORT, match r {
                Ok(s) => Ok(s.address),
                Err(e) => Err(e),
            }),
            r matches Ok(s) ==> s.timeout == timeout,
    {
        match lookup_address(address, JAVA_DEFAULT_PORT) {
            Ok(a) => Ok(LegacyServer { address: a, timeout }),
            Err(e) => Err(e),
        }
    }

    /// Returns the server's address.
    pub fn address(&self) -> (a: &Address)
        ensures
            *a == self.address,
    {
        &self.address
    }
}

} // verus!
