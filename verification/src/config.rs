//! Server configuration: the settings, their defaults and their validation.

use crate::bindings::available_cpus;
use crate::error::Error;
use crate::text::texts;
use vstd::prelude::*;

verus! {

/// All settings of a server.
#[derive(Debug, Clone)]
pub struct Config {
    pub server: ServerConfig,
    pub files: FileConfig,
    pub security: SecurityConfig,
    pub performance: PerformanceConfig,
}

/// Where the server listens, and with how many workers.
#[derive(Debug, Clone)]
pub struct ServerConfig {
    pub host: String,
    pub port: u16,
    pub workers: usize,
    pub backlog: u32,
}

/// Which files are served, and from where.
#[derive(Debug, Clone)]
pub struct FileConfig {
    pub root_dir: String,
    pub max_file_size: usize,
    pub allowed_extensions: Vec<String>,
    pub enable_directory_listing: bool,
}

/// Limits on what clients may send, and cross-origin rules.
#[derive(Debug, Clone)]
pub struct SecurityConfig {
    pub max_request_size: usize,
    pub allowed_origins: Vec<String>,
    pub enable_cors: bool,
    pub rate_limit_requests: usize,
    pub rate_limit_window: u64,
}

/// Time limits in seconds, connection limits and compression.
#[derive(Debug, Clone)]
pub struct PerformanceConfig {
    pub connection_timeout: u64,
    pub keep_alive_timeout: u64,
    pub max_connections: usize,
    pub enable_compression: bool,
    pub compression_level: u32,
}

/// The file extensions that are served by default.
pub open spec fn default_extensions() -> Seq<Seq<char>> {
    seq![
        "txt"@,
        "html"@,
        "css"@,
        "js"@,
        "json"@,
        "xml"@,
        "pdf"@,
        "jpg"@,
        "jpeg"@,
        "png"@,
        "gif"@,
    ]
}

/// The first setting that no server can run with, if there is one.
pub open spec fn first_fault(config: Config) -> Option<Seq<char>> {
    if config.server.port == 0 {
        Some("Port cannot be 0"@)
    } else if config.server.workers == 0 {
        Some("Workers cannot be 0"@)
    } else if config.security.max_request_size == 0 {
        Some("Max request size cannot be 0"@)
    } else if config.files.max_file_size == 0 {
        Some("Max file size cannot be 0"@)
    } else {
        None
    }
}

impl Default for ServerConfig {
    /// Port 4221 on the loopback address, with one worker for each
    /// processor of this machine.
    fn default() -> (config: ServerConfig)
        ensures
            config.host@ == "127.0.0.1"@,
            config.port == 4221,
            config.workers >= 1,
            config.backlog == 1024,
    {
        ServerConfig {
            host: "127.0.0.1".to_owned(),
            port: 4221,
            workers: available_cpus(),
            backlog: 1024,
        }
    }
}

impl Default for FileConfig {
    fn default() -> (config: FileConfig)
        ensures
            config.root_dir@ == "./files"@,
            config.max_file_size == 104857600,
            texts(config.allowed_extensions@) == default_extensions(),
            !config.enable_directory_listing,
    {
        let mut allowed: Vec<String> = Vec::new();
        allowed.push("txt".to_owned());
        allowed.push("html".to_owned());
        allowed.push("css".to_owned());
        allowed.push("js".to_owned());
        allowed.push("json".to_owned());
        allowed.push("xml".to_owned());
        allowed.push("pdf".to_owned());
        allowed.push("jpg".to_owned());
        allowed.push("jpeg".to_owned());
        allowed.push("png".to_owned());
        allowed.push("gif".to_owned());
        assert(texts(allowed@) =~= default_extensions());
        FileConfig {
            root_dir: "./files".to_owned(),
            max_file_size: 104857600,
            allowed_extensions: allowed,
            enable_directory_listing: false,
        }
    }
}

impl Default for SecurityConfig {
    fn default() -> (config: SecurityConfig)
        ensures
            config.max_request_size == 10485760,
            texts(config.allowed_origins@) == seq!["*"@],
            config.enable_cors,
            config.rate_limit_requests == 1000,
            config.rate_limit_window == 60,
    {
        let mut origins: Vec<String> = Vec::new();
        origins.push("*".to_owned());
        assert(texts(origins@) =~= seq!["*"@]);
        SecurityConfig {
            max_request_size: 10485760,
            allowed_origins: origins,
            enable_cors: true,
            rate_limit_requests: 1000,
            rate_limit_window: 60,
        }
    }
}

impl Default for PerformanceConfig {
    fn default() -> (config: PerformanceConfig)
        ensures
            config.connection_timeout == 30,
            config.keep_alive_timeout == 5,
            config.max_connections == 10000,
            config.enable_compression,
            config.compression_level == 6,
    {
        PerformanceConfig {
            connection_timeout: 30,
            keep_alive_timeout: 5,
            max_connections: 10000,
            enable_compression: true,
            compression_level: 6,
        }
    }
}

impl Default for Config {
    /// The default of every part; a server can run with it.
    fn default() -> (config: Config)
        ensures
            config.server.port == 4221,
            config.server.host@ == "127.0.0.1"@,
            first_fault(config) is None,
    {
        Config {
            server: ServerConfig::default(),
            files: FileConfig::default(),
            security: SecurityConfig::default(),
            performance: PerformanceConfig::default(),
        }
    }
}

impl Config {
    /// Settles the configuration once its sources have been read. `read` is
    /// what reading them gave: the settings, `None` where the sources hold
    /// no complete configuration, or the message of the failure to read
    /// them. Without settings the defaults apply; a failure is passed on.
    pub fn load(read: Result<Option<Config>, String>) -> (r: Result<Config, Error>)
        ensures
            match read {
                Ok(Some(config)) => r == Ok::<Config, Error>(config),
                Ok(None) => r is Ok && r->Ok_0.server.port == 4221 && first_fault(r->Ok_0)
                    is None,
                Err(message) => r == Err::<Config, Error>(Error::ConfigError(message)),
            },
    {
        match read {
            Ok(Some(config)) => Ok(config),
            Ok(None) => Ok(Config::default()),
            Err(message) => Err(Error::ConfigError(message)),
        }
    }

    /// Checks the settings that no server can run without: a port, workers,
    /// and room for requests and files. The first one missing is reported.
    pub fn validate(&self) -> (r: Result<(), Error>)
        ensures
            match first_fault(*self) {
                Some(message) => r is Err && r->Err_0 is Config && r->Err_0->Config_0@
                    == message,
                None => r is Ok,
            },
    {
        if self.server.port == 0 {
            return Err(Error::Config("Port cannot be 0".to_owned()));
        }
        if self.server.workers == 0 {
            return Err(Error::Config("Workers cannot be 0".to_owned()));
        }
        if self.security.max_request_size == 0 {
            return Err(Error::Config("Max request size cannot be 0".to_owned()));
        }
        if self.files.max_file_size == 0 {
            return Err(Error::Config("Max file size cannot be 0".to_owned()));
        }
        Ok(())
    }
}

} // verus!
