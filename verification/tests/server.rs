use almanac::cache::{build_cache_key, Cache, CachedEntry};
use almanac::catalog::{
    Confidence, EndpointFamily, Modalities, Model, ModelParameters, ModelStatus, Nanos, Pricing, Provider,
};
use almanac::compare::compare;
use almanac::conditional::{alias_lookup, model_lookup, not_modified, provider_lookup, Lookup};
use almanac::config::{
    cache_plan, limiter_plan, CacheBackendKind, CachePlan, LimiterPlan, RateLimitBackend, ServerConfig,
};
use almanac::error::ApiError;
use almanac::filter::ModelFilter;
use almanac::fuzzy::{top_suggestions, MatchType, DEFAULT_THRESHOLD, EXACT_SCORE};
use almanac::queries::{list_models, search};
use almanac::ratelimit::{ClientIp, MemoryRateLimiter, RateLimitResult};
use almanac::request::{
    body_too_large, choose_request_id, client_ip, completion_level, first_forwarded, request_id_text, LogLevel,
};
use almanac::rounding::score_millis;
use almanac::routes::{health_data, root_data};
use almanac::scope::{parse_model_ref, CatalogScope, ModelRef, ScopeSource};
use almanac::state::{build_state, AppState};
use almanac::stats::compute_stats;
use almanac::validate::{validate, ValidateRequest};

fn usd(x: f64) -> Nanos {
    (x * 1_000_000_000.0).round() as Nanos
}

fn provider(id: &str) -> Provider {
    Provider {
        id: id.to_string(),
        display_name: id.to_string(),
        website: format!("https://{id}.example.com"),
        api_docs: Some(format!("https://{id}.example.com/docs")),
    }
}

fn pricing(input: f64, output: f64) -> Pricing {
    Pricing {
        currency: "USD".to_string(),
        input: usd(input),
        output: usd(output),
        cached_input: None,
        batch_input: None,
        batch_output: None,
        request_fee: None,
        search_fee: None,
        reasoning: None,
        per_image: None,
        per_second: None,
        per_minute: None,
        per_million_chars: None,
        per_page: None,
        pricing_notes: None,
    }
}

fn model(provider: &str, id: &str, status: ModelStatus, pricing: Option<Pricing>) -> Model {
    Model {
        id: id.to_string(),
        provider: provider.to_string(),
        display_name: id.to_string(),
        status,
        release_date: None,
        deprecation_date: None,
        sunset_date: None,
        replacement: None,
        context_window: 128000,
        max_output_tokens: 4096,
        modalities: Modalities { input: vec!["text".to_string()], output: vec!["text".to_string()] },
        capabilities: vec![],
        parameters: ModelParameters { supported: vec![], rejected: vec![], deprecated_for_this_model: vec![] },
        pricing,
        last_verified: "2026-05-10".to_string(),
        confidence: Confidence::Official,
        endpoint_family: EndpointFamily::ChatCompletions,
        sources: vec![],
    }
}

fn count_of(v: &[(String, usize)], key: &str) -> usize {
    v.iter().find(|(k, _)| k == key).map(|(_, n)| *n).unwrap()
}

// ── Scope ───────────────────────────────────────────────────────────────────

#[test]
fn model_ref_requires_provider_and_model_id() {
    assert_eq!(
        parse_model_ref("openai/gpt-4o").unwrap(),
        ModelRef { provider: "openai".to_string(), id: "gpt-4o".to_string() }
    );
    assert!(parse_model_ref("gpt-4o").is_err());
    assert!(parse_model_ref("openai/").is_err());
    assert!(parse_model_ref("/gpt-4o").is_err());
    assert!(parse_model_ref("openai/gpt-4o/extra").is_err());
}

#[test]
fn env_scope_rejects_yaml_mode_conflict() {
    let err = CatalogScope::from_values(Some("openai".to_string()), None, None, None, Some("scope.yaml".to_string()))
        .unwrap_err();
    assert!(err.message().contains("remove either CATALOG_SCOPE_FILE or catalog scope env vars"));
}

#[test]
fn env_scope_parses_trimmed_deduplicated_lists() {
    let source = CatalogScope::from_values(
        Some(" openai,anthropic,openai ".to_string()),
        Some(" xai ".to_string()),
        Some("openai/gpt-4o, anthropic/sonnet-4-6".to_string()),
        Some("openai/gpt-4o-mini".to_string()),
        None,
    )
    .unwrap();
    let scope = match source {
        ScopeSource::Lists(scope) => scope,
        ScopeSource::File(path) => panic!("expected lists, got file {path}"),
    };
    assert_eq!(scope.include_providers.len(), 2);
    assert!(scope.include_providers.contains(&"openai".to_string()));
    assert!(scope.include_providers.contains(&"anthropic".to_string()));
    assert!(scope.exclude_providers.contains(&"xai".to_string()));
    assert!(scope.include_models.contains(&ModelRef { provider: "openai".to_string(), id: "gpt-4o".to_string() }));
    assert!(scope
        .exclude_models
        .contains(&ModelRef { provider: "openai".to_string(), id: "gpt-4o-mini".to_string() }));
}

fn empty_scope() -> CatalogScope {
    CatalogScope { include_providers: vec![], exclude_providers: vec![], include_models: vec![], exclude_models: vec![] }
}

#[test]
fn apply_scope_includes_providers_and_removes_unusable_aliases() {
    let scope = CatalogScope { include_providers: vec!["openai".to_string()], ..empty_scope() };
    let providers = vec![provider("openai"), provider("anthropic")];
    let models = vec![
        model("openai", "gpt-4o", ModelStatus::Active, None),
        model("anthropic", "sonnet", ModelStatus::Active, None),
    ];
    let aliases = vec![
        ("gpt-latest".to_string(), "gpt-4o".to_string()),
        ("sonnet-latest".to_string(), "sonnet".to_string()),
    ];
    let scoped = scope.apply(providers, models, aliases).unwrap();
    assert_eq!(scoped.providers.len(), 1);
    assert_eq!(scoped.providers[0].id, "openai");
    assert_eq!(scoped.models.len(), 1);
    assert_eq!(scoped.models[0].id, "gpt-4o");
    assert!(scoped.aliases.iter().any(|(a, _)| a == "gpt-latest"));
    assert!(!scoped.aliases.iter().any(|(a, _)| a == "sonnet-latest"));
}

#[test]
fn apply_scope_exclude_wins_over_include() {
    let scope = CatalogScope {
        include_providers: vec!["openai".to_string()],
        exclude_models: vec![ModelRef { provider: "openai".to_string(), id: "gpt-4o".to_string() }],
        ..empty_scope()
    };
    let err = scope
        .apply(vec![provider("openai")], vec![model("openai", "gpt-4o", ModelStatus::Active, None)], vec![])
        .unwrap_err();
    assert!(err.message().contains("zero visible models"));
}

#[test]
fn apply_scope_rejects_unknown_entries() {
    let scope = CatalogScope { include_providers: vec!["missing".to_string()], ..empty_scope() };
    let err = scope
        .apply(vec![provider("openai")], vec![model("openai", "gpt-4o", ModelStatus::Active, None)], vec![])
        .unwrap_err();
    assert!(err.message().contains("unknown provider 'missing'"));
}

#[test]
fn disabled_scope_keeps_everything() {
    let scope = CatalogScope::disabled();
    assert!(scope.is_disabled());
    let scoped = scope
        .apply(
            vec![provider("openai")],
            vec![model("openai", "gpt-4o", ModelStatus::Active, None)],
            vec![("a".to_string(), "nowhere".to_string())],
        )
        .unwrap();
    assert_eq!(scoped.aliases.len(), 1);
}

// ── Config ──────────────────────────────────────────────────────────────────

fn cfg(overrides: impl Fn(&mut [Option<String>; 12])) -> Result<ServerConfig, almanac::config::ConfigError> {
    let mut args: [Option<String>; 12] = Default::default();
    overrides(&mut args);
    let [data_dir, port, inc_prov, exc_prov, inc_mod, exc_mod, scope_file, redis_url, rl_backend, rl_rps, cache_backend, cache_ttl] =
        args;
    ServerConfig::from_values(
        data_dir, port, inc_prov, exc_prov, inc_mod, exc_mod, scope_file, redis_url, rl_backend, rl_rps,
        cache_backend, cache_ttl,
    )
}

#[test]
fn defaults_to_current_directory_and_port_8080() {
    let config = cfg(|_| {}).unwrap();
    assert_eq!(config.data_dir, ".");
    assert_eq!(config.port, 8080);
    match config.catalog_scope {
        ScopeSource::Lists(s) => assert!(s.is_disabled()),
        ScopeSource::File(_) => panic!("no scope file was given"),
    }
}

#[test]
fn reads_custom_data_dir_and_port() {
    let config = cfg(|a| {
        a[0] = Some("fixtures".into());
        a[1] = Some("9090".into());
    })
    .unwrap();
    assert_eq!(config.data_dir, "fixtures");
    assert_eq!(config.port, 9090);
}

#[test]
fn rejects_invalid_port() {
    let err = cfg(|a| a[1] = Some("not-a-port".into())).unwrap_err();
    assert!(err.message().contains("PORT must be a valid TCP port"));
    assert!(cfg(|a| a[1] = Some("65536".into())).is_err());
}

#[test]
fn reads_catalog_scope_from_values() {
    let config = cfg(|a| {
        a[1] = Some("9090".into());
        a[2] = Some("openai".into());
    })
    .unwrap();
    match config.catalog_scope {
        ScopeSource::Lists(s) => assert!(s.include_providers.contains(&"openai".to_string())),
        ScopeSource::File(_) => panic!("no scope file was given"),
    }
}

#[test]
fn defaults_have_no_redis_and_memory_rate_limit() {
    let config = cfg(|_| {}).unwrap();
    assert!(config.redis_url.is_none());
    assert_eq!(config.rate_limit_backend, RateLimitBackend::Memory);
    assert!(config.rate_limit_rps.is_none());
    assert_eq!(config.cache_backend, CacheBackendKind::Disabled);
    assert_eq!(config.cache_ttl_secs, 300);
}

#[test]
fn reads_redis_url_and_cache_settings() {
    let config = cfg(|a| {
        a[7] = Some("rediss://example.upstash.io".into());
        a[8] = Some("redis".into());
        a[9] = Some("10".into());
        a[10] = Some("redis".into());
        a[11] = Some("600".into());
    })
    .unwrap();
    assert_eq!(config.redis_url.as_deref(), Some("rediss://example.upstash.io"));
    assert_eq!(config.rate_limit_backend, RateLimitBackend::Redis);
    assert_eq!(config.rate_limit_rps, Some(10));
    assert_eq!(config.cache_backend, CacheBackendKind::Redis);
    assert_eq!(config.cache_ttl_secs, 600);
}

#[test]
fn unknown_backend_defaults_to_memory_for_rate_limit() {
    let config = cfg(|a| a[8] = Some("typo".into())).unwrap();
    assert_eq!(config.rate_limit_backend, RateLimitBackend::Memory);
}

#[test]
fn unknown_cache_backend_defaults_to_none() {
    let config = cfg(|a| a[10] = Some("typo".into())).unwrap();
    assert_eq!(config.cache_backend, CacheBackendKind::Disabled);
}

#[test]
fn zero_rate_limit_means_no_limit() {
    let config = cfg(|a| a[9] = Some("0".into())).unwrap();
    assert!(config.rate_limit_rps.is_none());
}

#[test]
fn backends_fall_back_without_redis() {
    assert_eq!(cache_plan(CacheBackendKind::Redis, false), CachePlan::Disabled);
    assert_eq!(cache_plan(CacheBackendKind::Redis, true), CachePlan::Redis);
    assert_eq!(cache_plan(CacheBackendKind::Memory, false), CachePlan::Memory);
    assert_eq!(limiter_plan(None, RateLimitBackend::Redis, true), LimiterPlan::Off);
    assert_eq!(limiter_plan(Some(5), RateLimitBackend::Redis, false), LimiterPlan::Memory(5));
    assert_eq!(limiter_plan(Some(5), RateLimitBackend::Redis, true), LimiterPlan::Redis(5));
}

// ── State and statistics ────────────────────────────────────────────────────

#[test]
fn compute_stats_counts_correctly() {
    let providers = vec![provider("p1"), provider("p2")];
    let models = vec![
        model("p1", "m1", ModelStatus::Active, Some(pricing(1.0, 2.0))),
        model("p2", "m2", ModelStatus::Active, Some(pricing(5.0, 10.0))),
        model("p1", "m3", ModelStatus::Deprecated, None),
    ];
    let stats = compute_stats(&models, &providers, "2026-05-10T00:00:00Z".to_string());
    assert_eq!(stats.total_models, 3);
    assert_eq!(stats.total_providers, 2);
    assert_eq!(stats.models_without_pricing, 1);
    assert_eq!(stats.free_models, 0);
    assert_eq!(count_of(&stats.models_by_status, "active"), 2);
    assert_eq!(count_of(&stats.models_by_status, "deprecated"), 1);
    assert_eq!(count_of(&stats.models_by_provider, "p1"), 2);
    assert_eq!(count_of(&stats.models_by_provider, "p2"), 1);
    assert_eq!(count_of(&stats.models_by_confidence, "official"), 3);
    let cheapest = stats.cheapest_input.unwrap();
    assert_eq!(cheapest.model_id, "m1");
    assert_eq!(cheapest.price, usd(1.0));
    let priciest = stats.most_expensive_input.unwrap();
    assert_eq!(priciest.model_id, "m2");
    assert_eq!(priciest.price, usd(5.0));
    assert!(!stats.last_updated.is_empty());
    // Each model is counted once per grouping.
    let total: usize = stats.models_by_status.iter().map(|(_, n)| n).sum();
    assert_eq!(total, 3);
}

fn fixture() -> AppState {
    let mut retired = model("openai", "gpt-4-vision-preview", ModelStatus::Retired, None);
    retired.replacement = Some("gpt-4o".to_string());
    let models = vec![
        model("openai", "gpt-4o", ModelStatus::Active, Some(pricing(2.5, 10.0))),
        model("anthropic", "opus-4-7", ModelStatus::Active, Some(pricing(15.0, 75.0))),
        retired,
        model("anthropic", "opus-3", ModelStatus::Deprecated, Some(pricing(15.0, 75.0))),
    ];
    build_state(
        vec![provider("openai"), provider("anthropic")],
        models,
        vec![("opus-4".to_string(), "opus-4-7".to_string())],
        b"[]",
        b"[]",
        "2026-05-10T00:00:00Z".to_string(),
    )
}

fn no_filter() -> ModelFilter {
    ModelFilter {
        provider: None,
        status: None,
        capability: None,
        limit: None,
        offset: None,
        sort: None,
        order: None,
        modality_input: None,
        modality_output: None,
        min_context: None,
        max_input_price: None,
    }
}

#[test]
fn catalog_etag_is_a_quoted_sha256() {
    let state = fixture();
    assert!(state.etag.starts_with('"') && state.etag.ends_with('"'));
    assert_eq!(state.etag.len(), 66);
}

#[test]
fn models_filter_by_provider() {
    let state = fixture();
    let page = list_models(&state, &ModelFilter { provider: Some("openai".to_string()), ..no_filter() });
    assert_eq!(page.total, 2);
    assert!(page.data.iter().all(|&i| state.models[i].provider == "openai"));
}

#[test]
fn models_default_order_is_by_provider_keeping_catalog_order() {
    let state = fixture();
    let page = list_models(&state, &no_filter());
    let ids: Vec<&str> = page.data.iter().map(|&i| state.models[i].id.as_str()).collect();
    assert_eq!(ids, vec!["opus-4-7", "opus-3", "gpt-4o", "gpt-4-vision-preview"]);
}

#[test]
fn models_unknown_sort_falls_back_to_provider_then_id() {
    let state = fixture();
    let page = list_models(&state, &ModelFilter { sort: Some("unknown".to_string()), ..no_filter() });
    let ids: Vec<&str> = page.data.iter().map(|&i| state.models[i].id.as_str()).collect();
    assert_eq!(ids, vec!["opus-3", "opus-4-7", "gpt-4-vision-preview", "gpt-4o"]);
    let page = list_models(
        &state,
        &ModelFilter { sort: Some("id".to_string()), order: Some("desc".to_string()), ..no_filter() },
    );
    let ids: Vec<&str> = page.data.iter().map(|&i| state.models[i].id.as_str()).collect();
    assert_eq!(ids, vec!["opus-4-7", "opus-3", "gpt-4o", "gpt-4-vision-preview"]);
}

#[test]
fn models_support_limit_and_offset() {
    let state = fixture();
    let page = list_models(&state, &ModelFilter { limit: Some(2), offset: Some(1), ..no_filter() });
    assert_eq!(page.total, 4);
    assert_eq!(page.data.len(), 2);
    assert_eq!(page.offset, 1);
}

#[test]
fn models_page_reports_the_requested_limit() {
    let state = fixture();
    let openai = || ModelFilter { provider: Some("openai".to_string()), ..no_filter() };
    let past = list_models(&state, &ModelFilter { limit: Some(10), offset: Some(10000), ..openai() });
    assert_eq!(past.total, 2);
    assert!(past.data.is_empty());
    assert_eq!(past.offset, 2);
    assert_eq!(past.limit, 10);
    let large = list_models(&state, &ModelFilter { limit: Some(1000), offset: Some(0), ..openai() });
    assert_eq!(large.data.len(), 2);
    assert_eq!(large.offset, 0);
    assert_eq!(large.limit, 1000);
    let default = list_models(&state, &ModelFilter { limit: Some(0), ..openai() });
    assert_eq!(default.limit, 20);
    assert_eq!(default.data.len(), 2);
}

#[test]
fn validate_known_active_model() {
    let state = fixture();
    let r = validate(
        &state,
        &ValidateRequest { model: "opus-4-7".to_string(), provider: None, parameters: None, modalities: None },
    );
    assert!(r.valid);
    assert_eq!(r.canonical_id.as_deref(), Some("opus-4-7"));
    assert!(r.errors.is_empty());
}

#[test]
fn validate_alias_resolves_to_canonical() {
    let state = fixture();
    let r = validate(
        &state,
        &ValidateRequest { model: "opus-4".to_string(), provider: None, parameters: None, modalities: None },
    );
    assert!(r.valid);
    assert_eq!(r.canonical_id.as_deref(), Some("opus-4-7"));
}

#[test]
fn validate_retired_model_returns_error() {
    let state = fixture();
    let r = validate(
        &state,
        &ValidateRequest {
            model: "gpt-4-vision-preview".to_string(),
            provider: None,
            parameters: None,
            modalities: None,
        },
    );
    assert!(!r.valid);
    assert_eq!(r.errors[0].code, "MODEL_RETIRED");
}

#[test]
fn validate_unknown_model_returns_not_found_with_suggestions() {
    let state = fixture();
    let r = validate(
        &state,
        &ValidateRequest { model: "opus-4.7".to_string(), provider: None, parameters: None, modalities: None },
    );
    assert!(!r.valid);
    assert!(r.canonical_id.is_none());
    assert_eq!(r.errors[0].code, "MODEL_NOT_FOUND");
    assert!(r.errors[0].suggestions.iter().any(|s| s == "opus-4-7"));
}

#[test]
fn validate_provider_mismatch_returns_error() {
    let state = fixture();
    let r = validate(
        &state,
        &ValidateRequest {
            model: "gpt-4o".to_string(),
            provider: Some("anthropic".to_string()),
            parameters: None,
            modalities: None,
        },
    );
    assert!(!r.valid);
    assert_eq!(r.errors[0].code, "PROVIDER_MISMATCH");
}

#[test]
fn search_with_alias_query_reports_the_match() {
    let state = fixture();
    let page = search(&state, &Some("opus-4".to_string()), &no_filter());
    let first = &page.entries[0];
    assert_eq!(state.models[first.index].id, "opus-4-7");
    assert_eq!(state.models[first.index].provider, "anthropic");
    let s = first.suggestion.as_ref().unwrap();
    assert_eq!(s.matched, "opus-4");
    assert_eq!(s.match_type, MatchType::Alias);
    assert_eq!(s.score, EXACT_SCORE);
}

#[test]
fn search_without_query_lists_like_models() {
    let state = fixture();
    let filter = ModelFilter { provider: Some("openai".to_string()), limit: Some(3), ..no_filter() };
    let page = search(&state, &None, &filter);
    let listed = list_models(&state, &filter);
    assert_eq!(page.total, 2);
    assert_eq!(page.entries.iter().map(|e| e.index).collect::<Vec<_>>(), listed.data);
    assert!(page.entries.iter().all(|e| e.suggestion.is_none() && state.models[e.index].provider == "openai"));
    let blank = search(&state, &Some("   ".to_string()), &filter);
    assert_eq!(blank.entries.iter().map(|e| e.index).collect::<Vec<_>>(), listed.data);
}

#[test]
fn search_pages_scored_results_best_first() {
    let state = fixture();
    let filter = ModelFilter { provider: Some("openai".to_string()), ..no_filter() };
    let all = search(&state, &Some("gpt".to_string()), &filter);
    let ids: Vec<&str> = all.entries.iter().map(|e| state.models[e.index].id.as_str()).collect();
    assert_eq!(ids, vec!["gpt-4o", "gpt-4-vision-preview"]);
    let page = search(&state, &Some("gpt".to_string()), &ModelFilter { limit: Some(1), offset: Some(1), ..filter });
    assert_eq!(page.total, 2);
    assert_eq!(page.limit, 1);
    assert_eq!(page.offset, 1);
    assert_eq!(page.entries.len(), 1);
    assert_eq!(state.models[page.entries[0].index].id, "gpt-4-vision-preview");
    assert!(page.entries[0].suggestion.is_some());
}

#[test]
fn suggest_exact_alias_ranks_first() {
    let state = fixture();
    let got = top_suggestions(&state, "opus-4", None, 5, DEFAULT_THRESHOLD);
    assert!(!got.is_empty());
    assert_eq!(got[0].canonical_id, "opus-4-7");
    assert_eq!(got[0].match_type, MatchType::Alias);
    assert_eq!(got[0].score, EXACT_SCORE);
    assert!(top_suggestions(&state, "   ", None, 5, DEFAULT_THRESHOLD).is_empty());
}

#[test]
fn compare_returns_models_in_requested_order() {
    let state = fixture();
    let r = compare(&state, "anthropic/opus-4-7,openai/gpt-4o").unwrap();
    let ids: Vec<&str> = r.models.iter().map(|&i| state.models[i].id.as_str()).collect();
    assert_eq!(ids, vec!["opus-4-7", "gpt-4o"]);
}

#[test]
fn compare_requires_two_unique_models() {
    let state = fixture();
    let e = compare(&state, "openai/gpt-4o,openai/gpt-4o").unwrap_err();
    assert_eq!(e.error_code(), "BAD_REQUEST");
    assert_eq!(e.status_code(), 400);
}

#[test]
fn compare_unknown_model_returns_not_found() {
    let state = fixture();
    let e = compare(&state, "openai/gpt-4o,openai/nope").unwrap_err();
    assert!(matches!(e, ApiError::ModelNotFound { .. }));
    assert_eq!(e.status_code(), 404);
}

#[test]
fn root_and_health_payloads() {
    let state = fixture();
    let root = root_data("0.1.0");
    assert_eq!(root.base_path, "/api/v1");
    assert_eq!(root.health, "/api/v1/health");
    let h = health_data(&state, "0.1.0");
    assert_eq!(h.status, "ok");
    assert_eq!(h.total_models, 4);
    assert_eq!(h.total_providers, 2);
    assert_eq!(h.total_aliases, 1);
}

// ── Cache ───────────────────────────────────────────────────────────────────

#[test]
fn noop_always_returns_none() {
    let mut cache = Cache::noop();
    cache.set("k", &CachedEntry { headers: vec![], body: "v".into() }, 60_000, 0);
    assert!(cache.get("k", 1).is_none());
}

#[test]
fn memory_miss_returns_none() {
    let mut cache = Cache::memory(60_000);
    assert!(cache.get("missing", 0).is_none());
}

#[test]
fn memory_stores_and_retrieves_entry() {
    let mut cache = Cache::memory(60_000);
    let entry = CachedEntry {
        headers: vec![("content-type".into(), "application/json".into())],
        body: r#"{"ok":true}"#.into(),
    };
    cache.set("k", &entry, 60_000, 0);
    let got = cache.get("k", 10).expect("should be Some");
    assert_eq!(got.body, r#"{"ok":true}"#);
    assert_eq!(got.headers[0].0, "content-type");
}

#[test]
fn memory_entry_expires() {
    let mut cache = Cache::memory(60_000);
    let entry = CachedEntry { headers: vec![], body: "val".into() };
    cache.set("k", &entry, 1, 0);
    assert!(cache.get("k", 10).is_none());
}

#[test]
fn build_cache_key_normalizes_query_order() {
    let k1 = build_cache_key("etag1", "/api/v1/models", "b=2&a=1");
    let k2 = build_cache_key("etag1", "/api/v1/models", "a=1&b=2");
    assert_eq!(k1, k2);
}

#[test]
fn build_cache_key_differs_by_etag() {
    let k1 = build_cache_key("etag1", "/api/v1/models", "");
    let k2 = build_cache_key("etag2", "/api/v1/models", "");
    assert_ne!(k1, k2);
}

#[test]
fn build_cache_key_differs_by_path() {
    let k1 = build_cache_key("etag1", "/api/v1/models", "");
    let k2 = build_cache_key("etag1", "/api/v1/providers", "");
    assert_ne!(k1, k2);
}

// ── Rate limiting ───────────────────────────────────────────────────────────

#[test]
fn memory_limiter_allows_limit_per_window() {
    let ip = ClientIp { v6: false, bits: 0x7f00_0001 };
    let other = ClientIp { v6: false, bits: 0x7f00_0002 };
    let mut l = MemoryRateLimiter::new(2);
    assert_eq!(l.check(ip, 0), RateLimitResult::Allowed { remaining: 1 });
    assert_eq!(l.check(ip, 10), RateLimitResult::Allowed { remaining: 0 });
    assert_eq!(l.check(ip, 20), RateLimitResult::Limited { retry_after_secs: 1 });
    assert_eq!(l.check(other, 20), RateLimitResult::Allowed { remaining: 1 });
    assert_eq!(l.check(ip, 1000), RateLimitResult::Allowed { remaining: 1 });
}

// ── Requests ────────────────────────────────────────────────────────────────

#[test]
fn request_id_prefers_a_non_blank_header() {
    assert_eq!(choose_request_id(Some("abc"), "req-1".to_string()), "abc");
    assert_eq!(choose_request_id(Some("   "), "req-1".to_string()), "req-1");
    assert_eq!(choose_request_id(None, "req-1".to_string()), "req-1");
    assert_eq!(request_id_text(255, 16), "req-ff-10");
    assert_eq!(request_id_text(0, 0), "req-0-0");
}

#[test]
fn oversized_bodies_are_detected_from_content_length() {
    assert!(body_too_large(Some("65537")));
    assert!(!body_too_large(Some("65536")));
    assert!(!body_too_large(Some("big")));
    assert!(!body_too_large(None));
}

#[test]
fn client_address_precedence() {
    let a = ClientIp { v6: false, bits: 1 };
    let b = ClientIp { v6: false, bits: 2 };
    let c = ClientIp { v6: true, bits: 3 };
    assert_eq!(first_forwarded(" 10.0.0.1 , 10.0.0.2"), "10.0.0.1");
    assert_eq!(client_ip(Some(a), Some(b), Some(c)), a);
    assert_eq!(client_ip(None, Some(b), Some(c)), b);
    assert_eq!(client_ip(None, None, Some(c)), c);
    assert_eq!(client_ip(None, None, None), ClientIp { v6: false, bits: 0 });
    assert_eq!(completion_level(503), LogLevel::Error);
    assert_eq!(completion_level(404), LogLevel::Warn);
    assert_eq!(completion_level(200), LogLevel::Info);
}

#[test]
fn score_millis_exact_values() {
    assert_eq!(score_millis(0.0f64.to_bits()), 0);
    assert_eq!(score_millis(0.7f64.to_bits()), 700);
    assert_eq!(score_millis(1.0f64.to_bits()), 1000);
    assert_eq!(score_millis(0.0004f64.to_bits()), 0);
    assert_eq!(score_millis(0.0005f64.to_bits()), 1);
    assert_eq!(score_millis(0.12345f64.to_bits()), 123);
    assert_eq!(score_millis(2.5f64.to_bits()), 2500);
    assert_eq!(score_millis((-0.5f64).to_bits()), 0);
    assert_eq!(score_millis(f64::INFINITY.to_bits()), u64::MAX);
}

#[test]
fn score_millis_agrees_with_float_rounding() {
    let samples = [0.8765f64, 0.0015, 0.1235, 0.9995, 0.7005, 5e-324, 1e-300, 123.4567, 1e15];
    for x in samples {
        assert_eq!(score_millis(x.to_bits()), (x * 1000.0).round() as u64, "{}", x);
    }
    let mut bits: u64 = 0x3fe0_0000_0000_0000;
    while bits < 0x3ff0_0000_0000_0000 {
        let x = f64::from_bits(bits);
        assert_eq!(score_millis(bits), (x * 1000.0).round() as u64, "{}", x);
        bits += 0x0000_0123_4567_89ab;
    }
}

#[test]
fn model_lookup_answers_not_found_not_modified_or_the_model() {
    let state = fixture();
    let tag = Some(state.etag.clone());
    match model_lookup(&state, &"anthropic".to_string(), &"nope".to_string(), &tag) {
        Err(ApiError::ModelNotFound { provider, id }) => {
            assert_eq!(provider, "anthropic");
            assert_eq!(id, "nope");
        }
        other => panic!("expected not found, got {other:?}"),
    }
    assert!(matches!(
        model_lookup(&state, &"anthropic".to_string(), &"opus-4-7".to_string(), &tag),
        Ok(Lookup::NotModified)
    ));
    match model_lookup(&state, &"anthropic".to_string(), &"opus-4-7".to_string(), &Some("\"old\"".to_string())) {
        Ok(Lookup::Found(i)) => assert_eq!(state.models[i].id, "opus-4-7"),
        other => panic!("expected the model, got {other:?}"),
    }
    assert!(matches!(
        model_lookup(&state, &"anthropic".to_string(), &"opus-4-7".to_string(), &None),
        Ok(Lookup::Found(_))
    ));
}

#[test]
fn provider_and_alias_lookups_follow_the_catalog_tag() {
    let state = fixture();
    let tag = Some(state.etag.clone());
    assert!(matches!(provider_lookup(&state, &"nope".to_string(), &tag), Err(ApiError::ProviderNotFound { .. })));
    assert!(matches!(provider_lookup(&state, &"openai".to_string(), &tag), Ok(Lookup::NotModified)));
    assert!(matches!(provider_lookup(&state, &"openai".to_string(), &None), Ok(Lookup::Found(_))));
    assert!(matches!(alias_lookup(&state, &"nope".to_string(), &tag), Err(ApiError::AliasNotFound { .. })));
    assert!(matches!(alias_lookup(&state, &"opus-4".to_string(), &tag), Ok(Lookup::NotModified)));
    match alias_lookup(&state, &"opus-4".to_string(), &None) {
        Ok(Lookup::Found(m)) => assert_eq!(m.canonical_id, "opus-4-7"),
        other => panic!("expected the alias, got {other:?}"),
    }
    assert!(not_modified(&tag, &state.etag));
    assert!(!not_modified(&None, &state.etag));
}
