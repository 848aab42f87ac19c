//! Configuration: the layered sources (command line over file over
//! defaults) and the resolved record the runtime consumes. Reading the
//! command line and the file belongs to the program around the library;
//! the merge itself is plain logic and lives here.

use vstd::prelude::*;
use crate::request::Protocol;

verus! {

/// Which wire protocol the server speaks.
#[derive(Debug, Clone, Copy, PartialEq, Eq, Structural)]
pub enum ProtocolType {
    /// Memcached text protocol.
    Memcached,
    /// Redis serialization protocol.
    Resp,
    /// Ping protocol.
    Ping,
    /// Length-prefixed echo protocol.
    Echo,
}

/// Map a configured protocol to the dispatcher's protocol.
pub fn map_protocol(config_protocol: ProtocolType) -> (r: Protocol)
    ensures
        r == (match config_protocol {
            ProtocolType::Memcached => Protocol::Memcached,
            ProtocolType::Resp => Protocol::Resp,
            ProtocolType::Ping => Protocol::Ping,
            ProtocolType::Echo => Protocol::Echo,
        }),
{
    match config_protocol {
        ProtocolType::Memcached => Protocol::Memcached,
        ProtocolType::Resp => Protocol::Resp,
        ProtocolType::Ping => Protocol::Ping,
        ProtocolType::Echo => Protocol::Echo,
    }
}

/// Values given on the command line; `None` where an option was not given.
#[derive(Debug)]
pub struct CliArgs {
    /// Address to bind to.
    pub listen: Option<String>,
    /// Maximum memory in bytes.
    pub max_memory: Option<usize>,
    /// Default TTL in seconds (0 = no expiration).
    pub default_ttl: Option<u64>,
    /// Number of worker threads.
    pub workers: Option<usize>,
    /// Log level name.
    pub log_level: Option<String>,
}

/// Server section of the configuration file.
#[derive(Debug)]
pub struct ServerConfig {
    /// Address to bind to.
    pub listen: String,
    /// Number of worker threads.
    pub workers: Option<usize>,
}

impl Default for ServerConfig {
    /// The default server section: localhost on the memcached port, workers
    /// picked by the runtime.
    fn default() -> (r: Self)
        ensures
            r.listen@ == "127.0.0.1:11211"@,
            r.workers is None,
    {
        ServerConfig { listen: "127.0.0.1:11211".to_string(), workers: None }
    }
}

/// Storage section of the configuration file.
#[derive(Debug)]
pub struct StorageConfig {
    /// Maximum memory in bytes.
    pub max_memory: usize,
    /// Default TTL in seconds.
    pub default_ttl: u64,
    /// Interval of the expiration sweep, in seconds.
    pub cleanup_interval: u64,
}

impl Default for StorageConfig {
    /// The default storage section: 64 MB, no expiration, a sweep each
    /// minute.
    fn default() -> (r: Self)
        ensures
            r.max_memory == 67108864usize,
            r.default_ttl == 0u64,
            r.cleanup_interval == 60u64,
    {
        StorageConfig { max_memory: 67108864, default_ttl: 0, cleanup_interval: 60 }
    }
}

/// Logging section of the configuration file.
#[derive(Debug)]
pub struct LoggingConfig {
    /// Log level name.
    pub level: String,
}

impl Default for LoggingConfig {
    /// The default logging section.
    fn default() -> (r: Self)
        ensures
            r.level@ == "info"@,
    {
        LoggingConfig { level: "info".to_string() }
    }
}

/// The configuration file's shape.
#[derive(Debug)]
pub struct TomlConfig {
    /// Server section.
    pub server: ServerConfig,
    /// Storage section.
    pub storage: StorageConfig,
    /// Logging section.
    pub logging: LoggingConfig,
}

impl Default for TomlConfig {
    /// All sections at their defaults.
    fn default() -> (r: Self)
        ensures
            r.server.listen@ == "127.0.0.1:11211"@,
            r.server.workers is None,
            r.storage.max_memory == 67108864usize,
            r.storage.default_ttl == 0u64,
            r.storage.cleanup_interval == 60u64,
            r.logging.level@ == "info"@,
    {
        TomlConfig {
            server: ServerConfig::default(),
            storage: StorageConfig::default(),
            logging: LoggingConfig::default(),
        }
    }
}

/// The resolved configuration the runtime consumes, immutable for the
/// process lifetime.
#[derive(Debug)]
pub struct Config {
    /// Address to bind to.
    pub listen: String,
    /// Maximum memory in bytes.
    pub max_memory: usize,
    /// Default TTL in seconds (0 = no expiration).
    pub default_ttl: u64,
    /// Interval of the expiration sweep, in seconds.
    pub cleanup_interval: u64,
    /// Number of worker threads (`None` = one per core).
    pub workers: Option<usize>,
    /// Log level name.
    pub log_level: String,
    /// Wire protocol the server speaks.
    pub protocol: ProtocolType,
    /// Size of each pooled buffer, in bytes.
    pub buffer_size: usize,
    /// Hard cap on concurrent connections.
    pub max_connections: usize,
    /// Completions drained per wakeup.
    pub batch_size: usize,
    /// Submission ring size; a power of two.
    pub ring_size: usize,
    /// Largest value accepted, in bytes.
    pub max_value_size: usize,
}

impl Config {
    /// Resolve the final configuration: a value given on the command line
    /// wins over the file, which wins over the defaults; the runtime knobs
    /// take their fixed defaults.
    pub fn resolve(cli: CliArgs, file: TomlConfig) -> (r: Config)
        ensures
            r.listen@ == (match cli.listen {
                Some(l) => l@,
                None => file.server.listen@,
            }),
            r.max_memory == (match cli.max_memory {
                Some(m) => m,
                None => file.storage.max_memory,
            }),
            r.default_ttl == (match cli.default_ttl {
                Some(t) => t,
                None => file.storage.default_ttl,
            }),
            r.cleanup_interval == file.storage.cleanup_interval,
            r.workers == (match cli.workers {
                Some(w) => Some(w),
                None => file.server.workers,
            }),
            r.log_level@ == (match cli.log_level {
                Some(l) => l@,
                None => file.logging.level@,
            }),
            r.protocol == ProtocolType::Memcached,
            r.buffer_size == 16384usize,
            r.max_connections == 10000usize,
            r.batch_size == 64usize,
            r.ring_size == 1024usize,
            r.max_value_size == 1048576usize,
    {
        let listen = match cli.listen {
            Some(l) => l,
            None => file.server.listen,
        };
        let max_memory = match cli.max_memory {
            Some(m) => m,
            None => file.storage.max_memory,
        };
        let default_ttl = match cli.default_ttl {
            Some(t) => t,
            None => file.storage.default_ttl,
        };
        let workers = match cli.workers {
            Some(w) => Some(w),
            None => file.server.workers,
        };
        let log_level = match cli.log_level {
            Some(l) => l,
            None => file.logging.level,
        };
        Config {
            listen,
            max_memory,
            default_ttl,
            cleanup_interval: file.storage.cleanup_interval,
            workers,
            log_level,
            protocol: ProtocolType::Memcached,
            buffer_size: 16384,
            max_connections: 10000,
            batch_size: 64,
            ring_size: 1024,
            max_value_size: 1048576,
        }
    }
}

} // verus!
