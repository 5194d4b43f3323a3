//! Server settings read from their textual values (the environment, in the
//! running server).
use vstd::prelude::*;
use crate::scope::{CatalogScope, ScopeError, ScopeSource, from_values_spec, opt_string_view};
use crate::text::{parse_uint, parse_unsigned};

verus! {

#[derive(Clone, Copy, Debug, PartialEq, Eq, Structural)]
pub enum RateLimitBackend {
    Memory,
    Redis,
}

#[derive(Clone, Copy, Debug, PartialEq, Eq, Structural)]
pub enum CacheBackendKind {
    Disabled,
    Memory,
    Redis,
}

/// The server's settings. The listening address is every IPv4 interface at `port`.
#[derive(Clone, Debug)]
pub struct ServerConfig {
    pub data_dir: String,
    pub port: u16,
    pub catalog_scope: ScopeSource,
    pub redis_url: Option<String>,
    pub rate_limit_rps: Option<u32>,
    pub rate_limit_backend: RateLimitBackend,
    pub cache_backend: CacheBackendKind,
    pub cache_ttl_secs: u64,
}

/// Why the settings could not be read.
#[derive(Clone, Debug)]
pub enum ConfigError {
    InvalidPort,
    Scope(ScopeError),
}

pub open spec fn or_default(v: Option<Seq<char>>, d: Seq<char>) -> Seq<char> {
    match v {
        Some(s) => s,
        None => d,
    }
}

/// The request rate limit: a positive `u32`, else none.
pub open spec fn rps_spec(v: Option<Seq<char>>) -> Option<nat> {
    match v {
        Some(s) => match parse_unsigned(s, u32::MAX as nat) {
            Some(n) => if n > 0 {
                Some(n)
            } else {
                None
            },
            None => None,
        },
        None => None,
    }
}

pub open spec fn rate_backend_spec(v: Option<Seq<char>>) -> RateLimitBackend {
    if v == Some("redis"@) {
        RateLimitBackend::Redis
    } else {
        RateLimitBackend::Memory
    }
}

pub open spec fn cache_backend_spec(v: Option<Seq<char>>) -> CacheBackendKind {
    if v == Some("redis"@) {
        CacheBackendKind::Redis
    } else if v == Some("memory"@) {
        CacheBackendKind::Memory
    } else {
        CacheBackendKind::Disabled
    }
}

/// The cache lifetime in seconds: a `u64`, else 300.
pub open spec fn ttl_spec(v: Option<Seq<char>>) -> nat {
    match v {
        Some(s) => match parse_unsigned(s, u64::MAX as nat) {
            Some(n) => n,
            None => 300,
        },
        None => 300,
    }
}

fn is_text(v: &Option<String>, lit: &str) -> (r: bool)
    ensures
        r == (opt_string_view(*v) == Some(lit@)),
{
    match v {
        Some(s) => {
            let l = lit.to_owned();
            *s == l
        },
        None => false,
    }
}

impl ConfigError {
    /// The error's message.
    pub fn message(&self) -> (r: String)
        ensures
            self matches ConfigError::InvalidPort ==> r@ == "PORT must be a valid TCP port"@,
            self matches ConfigError::Scope(e) ==> r@ == crate::scope::fault_message(e@),
    {
        match self {
            ConfigError::InvalidPort => "PORT must be a valid TCP port".to_owned(),
            ConfigError::Scope(e) => e.message(),
        }
    }
}

impl ServerConfig {
    /// Reads the settings. The data directory defaults to `.`, the port to
    /// 8080 (an unparsable port is an error), the rate limit is kept only when
    /// it is a positive `u32`, the backends are chosen by the exact words
    /// `redis` and `memory`, and the cache lifetime defaults to 300 seconds.
    #[verifier::rlimit(30)]
    pub fn from_values(
        data_dir: Option<String>,
        port: Option<String>,
        include_providers: Option<String>,
        exclude_providers: Option<String>,
        include_models: Option<String>,
        exclude_models: Option<String>,
        scope_file: Option<String>,
        redis_url: Option<String>,
        rate_limit_backend: Option<String>,
        rate_limit_rps: Option<String>,
        cache_backend: Option<String>,
        cache_ttl_secs: Option<String>,
    ) -> (r: Result<ServerConfig, ConfigError>)
        ensures
            parse_unsigned(or_default(opt_string_view(port), "8080"@), 65535) is None ==> r
                matches Err(ConfigError::InvalidPort),
            parse_unsigned(or_default(opt_string_view(port), "8080"@), 65535) matches Some(pn) ==> {
                match r {
                    Err(ConfigError::InvalidPort) => false,
                    Err(ConfigError::Scope(x)) => from_values_spec(
                        Err(x),
                        opt_string_view(include_providers),
                        opt_string_view(exclude_providers),
                        opt_string_view(include_models),
                        opt_string_view(exclude_models),
                        opt_string_view(scope_file),
                    ),
                    Ok(c) => {
                        &&& from_values_spec(
                            Ok(c.catalog_scope),
                            opt_string_view(include_providers),
                            opt_string_view(exclude_providers),
                            opt_string_view(include_models),
                            opt_string_view(exclude_models),
                            opt_string_view(scope_file),
                        )
                        &&& c.data_dir@ == or_default(opt_string_view(data_dir), "."@)
                        &&& c.port == pn
                        &&& c.redis_url == redis_url
                        &&& c.rate_limit_rps.is_some() == rps_spec(
                            opt_string_view(rate_limit_rps),
                        ).is_some()
                        &&& c.rate_limit_rps matches Some(n) ==> rps_spec(
                            opt_string_view(rate_limit_rps),
                        ) == Some(n as nat)
                        &&& c.rate_limit_backend == rate_backend_spec(
                            opt_string_view(rate_limit_backend),
                        )
                        &&& c.cache_backend == cache_backend_spec(opt_string_view(cache_backend))
                        &&& c.cache_ttl_secs == ttl_spec(opt_string_view(cache_ttl_secs))
                    },
                }
            },
    {
        let data_dir = match data_dir {
            Some(d) => d,
            None => ".".to_owned(),
        };
        let port_text = match &port {
            Some(p) => p.clone(),
            None => "8080".to_owned(),
        };
        let port: u16 = match parse_uint(port_text.as_str(), 65535) {
            Some(p) => p as u16,
            None => {
                return Err(ConfigError::InvalidPort);
            },
        };
        let scope = CatalogScope::from_values(
            include_providers,
            exclude_providers,
            include_models,
            exclude_models,
            scope_file,
        );
        let catalog_scope = match scope {
            Ok(s) => s,
            Err(e) => {
                return Err(ConfigError::Scope(e));
            },
        };
        let rps = match &rate_limit_rps {
            Some(v) => match parse_uint(v.as_str(), 0xffff_ffff) {
                Some(n) => if n > 0 {
                    Some(n as u32)
                } else {
                    None
                },
                None => None,
            },
            None => None,
        };
        let rate_backend = if is_text(&rate_limit_backend, "redis") {
            RateLimitBackend::Redis
        } else {
            RateLimitBackend::Memory
        };
        let cache_kind = if is_text(&cache_backend, "redis") {
            CacheBackendKind::Redis
        } else if is_text(&cache_backend, "memory") {
            CacheBackendKind::Memory
        } else {
            CacheBackendKind::Disabled
        };
        let ttl = match &cache_ttl_secs {
            Some(v) => match parse_uint(v.as_str(), 0xffff_ffff_ffff_ffff) {
                Some(n) => n,
                None => 300,
            },
            None => 300,
        };
        Ok(
            ServerConfig {
                data_dir,
                port,
                catalog_scope,
                redis_url,
                rate_limit_rps: rps,
                rate_limit_backend: rate_backend,
                cache_backend: cache_kind,
                cache_ttl_secs: ttl,
            },
        )
    }
}


/// The response cache a server runs with.
#[derive(Clone, Copy, Debug, PartialEq, Eq, Structural)]
pub enum CachePlan {
    Redis,
    Memory,
    Disabled,
}

/// A Redis cache needs a Redis connection, and caching is off without one;
/// the memory cache needs nothing.
pub open spec fn cache_plan_spec(kind: CacheBackendKind, redis_connected: bool) -> CachePlan {
    match kind {
        CacheBackendKind::Redis => if redis_connected {
            CachePlan::Redis
        } else {
            CachePlan::Disabled
        },
        CacheBackendKind::Memory => CachePlan::Memory,
        CacheBackendKind::Disabled => CachePlan::Disabled,
    }
}

pub fn cache_plan(kind: CacheBackendKind, redis_connected: bool) -> (r: CachePlan)
    ensures
        r == cache_plan_spec(kind, redis_connected),
{
    match kind {
        CacheBackendKind::Redis => if redis_connected {
            CachePlan::Redis
        } else {
            CachePlan::Disabled
        },
        CacheBackendKind::Memory => CachePlan::Memory,
        CacheBackendKind::Disabled => CachePlan::Disabled,
    }
}

/// The rate limiter a server runs with, and its requests per second.
#[derive(Clone, Copy, Debug, PartialEq, Eq, Structural)]
pub enum LimiterPlan {
    Off,
    Memory(u32),
    Redis(u32),
}

/// No limit without a rate; a Redis limiter when one is asked for and
/// Redis is connected, else the in-memory one.
pub open spec fn limiter_plan_spec(rps: Option<u32>, backend: RateLimitBackend, redis_connected: bool) -> LimiterPlan {
    match rps {
        None => LimiterPlan::Off,
        Some(n) => match backend {
            RateLimitBackend::Redis => if redis_connected {
                LimiterPlan::Redis(n)
            } else {
                LimiterPlan::Memory(n)
            },
            RateLimitBackend::Memory => LimiterPlan::Memory(n),
        },
    }
}

pub fn limiter_plan(rps: Option<u32>, backend: RateLimitBackend, redis_connected: bool) -> (r: LimiterPlan)
    ensures
        r == limiter_plan_spec(rps, backend, redis_connected),
{
    match rps {
        None => LimiterPlan::Off,
        Some(n) => match backend {
            RateLimitBackend::Redis => if redis_connected {
                LimiterPlan::Redis(n)
            } else {
                LimiterPlan::Memory(n)
            },
            RateLimitBackend::Memory => LimiterPlan::Memory(n),
        },
    }
}

} // verus!
