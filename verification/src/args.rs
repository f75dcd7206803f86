//! The command line.
use vstd::prelude::*;

verus! {

/// What the command line asks for.
#[derive(Debug)]
pub struct Args {
    /// Run in server mode.
    pub server: bool,
    /// Run in client mode.
    pub client: bool,
    /// Run in singular mode, with only one upstream socket address.
    pub singular: bool,
    /// For a server: comma-separated ports. For a client: a single port.
    pub bind: String,
    /// Upstream addresses, as `host:port,port,..`.
    pub upstream: String,
    /// XOR key, in hexadecimal behind `0x` or in decimal.
    pub obfuscation_key: String,
    /// Inactivity timeout in seconds.
    pub inactivity_timeout_sec: u32,
    /// How many bytes of a packet are obfuscated at most.
    pub obfuscation_size: usize,
    /// Packets are padded to this size.
    pub pad_size: usize,
}

/// How the proxy runs.
#[derive(Clone, Copy, Debug, PartialEq, Eq, Structural)]
pub enum Mode {
    Server,
    Client,
    Singular,
}

/// Why a command line asks for no mode.
#[derive(Clone, Copy, Debug, PartialEq, Eq, Structural)]
pub enum ModeError {
    /// Both ends of a tunnel were asked for.
    ServerAndClient,
    /// Neither end of a tunnel was asked for.
    NeitherServerNorClient,
}

impl Args {
    /// How the proxy is to run. Singular mode needs neither end to be named, and a
    /// command line that names both ends is refused in every mode.
    pub fn mode(&self) -> (mode: Result<Mode, ModeError>)
        ensures
            mode == Err::<Mode, ModeError>(ModeError::ServerAndClient) <==> self.server
                && self.client,
            mode == Err::<Mode, ModeError>(ModeError::NeitherServerNorClient) <==> !self.server
                && !self.client && !self.singular,
            mode == Ok::<Mode, ModeError>(Mode::Singular) <==> self.singular && !(self.server
                && self.client),
            mode == Ok::<Mode, ModeError>(Mode::Server) <==> self.server && !self.client
                && !self.singular,
            mode == Ok::<Mode, ModeError>(Mode::Client) <==> self.client && !self.server
                && !self.singular,
    {
        if self.server && self.client {
            Err(ModeError::ServerAndClient)
        } else if self.singular {
            Ok(Mode::Singular)
        } else if self.server {
            Ok(Mode::Server)
        } else if self.client {
            Ok(Mode::Client)
        } else {
            Err(ModeError::NeitherServerNorClient)
        }
    }
}

} // verus!
