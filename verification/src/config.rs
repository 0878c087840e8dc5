//! Plain-value configuration model: route descriptions, transport
//! types, socket addresses and durations as the engine reasons about
//! them.  Loading a configuration file and decoding certificates stay
//! outside; they hand these values in.

use vstd::prelude::*;

use crate::namemap::NameMap;

verus! {

/// The transport a route carries: reliable byte stream or datagrams.
#[derive(Clone, Copy, Debug, PartialEq, Eq, Structural, Hash)]
pub enum RouteType {
    Tcp,
    Udp,
}

/// A socket address as plain values: an IP (IPv4 addresses live in the
/// low 32 bits) and a port.
#[derive(Clone, Copy, Debug, PartialEq, Eq, Structural, Hash)]
pub struct SockAddr {
    pub ip: u128,
    pub port: u16,
}

/// A duration as plain values, as the retry policy consumes it.
#[derive(Clone, Copy, Debug, PartialEq, Eq, Structural)]
pub struct TimeUnit {
    pub secs: u64,
    pub nanos: u32,
}

impl TimeUnit {
    /// The duration this value denotes, as whole seconds and the
    /// remaining nanoseconds.
    pub fn duration(&self) -> (r: (u64, u32))
        ensures
            r.0 == self.secs,
            r.1 == self.nanos,
    {
        (self.secs, self.nanos)
    }
}

/// Log verbosity, in increasing order of noise.
#[derive(Clone, Copy, Debug, PartialEq, Eq, Structural)]
pub enum LogLevel {
    Off,
    Error,
    Warn,
    Info,
    Debug,
    Trace,
}

/// The verbosity used when the configuration names none.
pub fn default_log_level() -> (r: LogLevel)
    ensures
        r == LogLevel::Info,
{
    LogLevel::Info
}

/// A route as the server side knows it: where to listen publicly.
#[derive(Clone, Copy, Debug, PartialEq, Eq, Structural)]
pub struct ServerRoute {
    pub bind: SockAddr,
    pub _type: RouteType,
    pub udp_buffer: Option<usize>,
}

/// A route as the client side knows it: which backend to reach.
#[derive(Clone, Copy, Debug, PartialEq, Eq, Structural)]
pub struct ClientRoute {
    pub to: SockAddr,
    pub _type: RouteType,
    pub udp_buffer: Option<usize>,
}

/// The datagram receive buffer size used when a route names none.
pub const DEFAULT_UDP_BUFFER: usize = 2048;

/// The ceiling on concurrently open substreams used when the
/// configuration names none.
pub const DEFAULT_MAX_BIDI_STREAMS: u32 = 100;

/// Server-side settings the engine decides with.  The certificate
/// chain and private key stay with the TLS layer outside.
pub struct ServerConfig {
    pub bind: SockAddr,
    pub route: NameMap<ServerRoute>,
    pub token: String,
    pub max_concurrent_bidi_streams: Option<u32>,
}

/// Client-side settings the engine decides with.  The trusted root
/// certificates stay with the TLS layer outside.
pub struct ClientConfig {
    pub remote: String,
    pub route: NameMap<ClientRoute>,
    pub token: String,
    pub retry_interval: Option<TimeUnit>,
    pub max_retry: Option<usize>,
    pub max_concurrent_bidi_streams: Option<u32>,
}

/// A loaded configuration: at most one of the two sides is filled.
pub struct Config {
    pub server: Option<ServerConfig>,
    pub client: Option<ClientConfig>,
    pub log_level: LogLevel,
}

/// Why a configuration cannot be run.
#[derive(Clone, Copy, Debug, PartialEq, Eq, Structural)]
pub enum ConfigError {
    /// Neither a server nor a client section is present.
    NeitherSide,
    /// Both sections are present.
    BothSides,
}

/// Which role a configuration selects.
pub enum Mode {
    Server(ServerConfig),
    Client(ClientConfig),
}

/// Picks the role a configuration runs in: exactly one of the server
/// and client sections must be present.
pub fn select_mode(config: Config) -> (r: Result<Mode, ConfigError>)
    ensures
        match r {
            Ok(Mode::Server(s)) => config.client is None && config.server == Some(s),
            Ok(Mode::Client(c)) => config.server is None && config.client == Some(c),
            Err(ConfigError::NeitherSide) => config.server is None && config.client is None,
            Err(ConfigError::BothSides) => config.server is Some && config.client is Some,
        },
{
    match (config.server, config.client) {
        (None, None) => Err(ConfigError::NeitherSide),
        (Some(_), Some(_)) => Err(ConfigError::BothSides),
        (Some(s), None) => Ok(Mode::Server(s)),
        (None, Some(c)) => Ok(Mode::Client(c)),
    }
}

} // verus!
