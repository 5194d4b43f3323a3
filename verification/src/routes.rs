//! The query parameters and payloads of the simpler API routes.
use vstd::prelude::*;
use crate::state::AppState;

verus! {

/// An empty payload.
#[derive(Debug, Clone, Copy)]
pub struct EmptyData {}

/// `GET /providers` paging.
#[derive(Debug, Clone, Copy)]
pub struct ProviderFilter {
    pub limit: Option<usize>,
    pub offset: Option<usize>,
}

/// `GET /aliases` paging.
#[derive(Debug, Clone, Copy)]
pub struct AliasFilter {
    pub limit: Option<usize>,
    pub offset: Option<usize>,
}

/// `GET /compare`: comma-separated `provider/id` references.
#[derive(Debug, Clone)]
pub struct CompareQuery {
    pub models: String,
}

/// `GET /suggest`.
#[derive(Debug, Clone)]
pub struct SuggestQuery {
    pub q: String,
    pub provider: Option<String>,
    pub limit: Option<usize>,
}

/// The landing payload: the service's name and version, and where its API
/// and documentation live.
#[derive(Debug, Clone, Copy)]
pub struct RootData {
    pub name: &'static str,
    pub version: &'static str,
    pub base_path: &'static str,
    pub health: &'static str,
    pub openapi: &'static str,
    pub swagger_ui: &'static str,
    pub scalar: &'static str,
}

pub fn root_data(version: &'static str) -> (r: RootData)
    ensures
        r.name@ == "Almanac API"@,
        r.version == version,
        r.base_path@ == "/api/v1"@,
        r.health@ == "/api/v1/health"@,
        r.openapi@ == "/openapi.json"@,
        r.swagger_ui@ == "/swagger-ui/"@,
        r.scalar@ == "/scalar"@,
{
    RootData {
        name: "Almanac API",
        version,
        base_path: "/api/v1",
        health: "/api/v1/health",
        openapi: "/openapi.json",
        swagger_ui: "/swagger-ui/",
        scalar: "/scalar",
    }
}

/// The server's health payload.
#[derive(Debug, Clone, Copy)]
pub struct HealthData {
    pub status: &'static str,
    pub version: &'static str,
    pub total_models: usize,
    pub total_providers: usize,
    pub total_aliases: usize,
}

/// The server is up; it serves the catalog it holds.
pub fn health_data(state: &AppState, version: &'static str) -> (r: HealthData)
    ensures
        r.status@ == "ok"@,
        r.version == version,
        r.total_models == state.models.len(),
        r.total_providers == state.providers.len(),
        r.total_aliases == state.aliases.len(),
{
    HealthData {
        status: "ok",
        version,
        total_models: state.models.len(),
        total_providers: state.providers.len(),
        total_aliases: state.aliases.len(),
    }
}

} // verus!
