//! Configuration of the service.

use vstd::prelude::*;

verus! {

/// HTTP server configuration.
#[derive(Debug, Clone)]
pub struct ServerConfig {
    /// Host to bind to.
    pub host: String,
    /// Port to listen on.
    pub port: u16,
    /// Whether cross-origin requests are allowed.
    pub cors_enabled: bool,
    /// Origins allowed for cross-origin requests.
    pub cors_origins: Vec<String>,
}

impl ServerConfig {
    /// The configuration is the default one.
    pub open spec fn is_default(&self) -> bool {
        &&& self.host@ == "127.0.0.1"@
        &&& self.port == 8080
        &&& self.cors_enabled
        &&& self.cors_origins.deep_view() == seq!["*"@]
    }
}

impl Default for ServerConfig {
    fn default() -> (config: Self)
        ensures
            config.is_default(),
    {
        let mut cors_origins: Vec<String> = Vec::new();
        cors_origins.push("*".to_owned());
        assert(cors_origins.deep_view() =~= seq!["*"@]);
        ServerConfig { host: "127.0.0.1".to_owned(), port: 8080, cors_enabled: true, cors_origins }
    }
}

/// Database configuration.
#[derive(Debug, Clone)]
pub struct DatabaseConfig {
    /// Path to the database file.
    pub path: String,
    /// Connection pool size.
    pub pool_size: u32,
}

impl DatabaseConfig {
    /// The configuration is the default one.
    pub open spec fn is_default(&self) -> bool {
        &&& self.path@ == "codegraph.db"@
        &&& self.pool_size == 4
    }
}

impl Default for DatabaseConfig {
    fn default() -> (config: Self)
        ensures
            config.is_default(),
    {
        DatabaseConfig { path: "codegraph.db".to_owned(), pool_size: 4 }
    }
}

/// Logging configuration.
#[derive(Debug, Clone)]
pub struct LoggingConfig {
    /// Log level (trace, debug, info, warn, error).
    pub level: String,
    /// Log format (pretty, json, compact).
    pub format: String,
}

impl LoggingConfig {
    /// The configuration is the default one.
    pub open spec fn is_default(&self) -> bool {
        &&& self.level@ == "info"@
        &&& self.format@ == "pretty"@
    }
}

impl Default for LoggingConfig {
    fn default() -> (config: Self)
        ensures
            config.is_default(),
    {
        LoggingConfig { level: "info".to_owned(), format: "pretty".to_owned() }
    }
}

/// Main configuration of the service.
#[derive(Debug, Clone)]
pub struct Config {
    /// Server configuration.
    pub server: ServerConfig,
    /// Database configuration.
    pub database: DatabaseConfig,
    /// Logging configuration.
    pub logging: LoggingConfig,
}

impl Default for Config {
    fn default() -> (config: Self)
        ensures
            config.server.is_default(),
            config.database.is_default(),
            config.logging.is_default(),
    {
        Config {
            server: ServerConfig::default(),
            database: DatabaseConfig::default(),
            logging: LoggingConfig::default(),
        }
    }
}

} // verus!
