use almanac::anthropic::{AnthropicSpider, Cell, Table};
use almanac::crawl::extract_follow_links;
use almanac::html::{card_parts, json_script_texts, page_links, page_parts, raw_tables};
use almanac::catalog::Nanos;
use almanac::deepgram::{aura_base_family, normalize_family_ids, per_min_rates_after, DeepgramSpider};
use almanac::deepseek::DeepSeekSpider;
use almanac::drift::{diff, DiffResult, PriceChangeKind};
use almanac::engine::Frontier;
use almanac::model_ids::{ids_in_text, looks_like_model_id};
use almanac::plan::{should_run, simple_provider_pages, unknown_selection, custom_provider_names};
use almanac::pricing::{all_unit_prices, first_per_million_token_price, first_unit_price};
use almanac::scraped::{CatalogEntry, PricingEntry, ScrapedModel};
use almanac::spiders::{HtmlResponse, PageParts, SpiderOutput};
use almanac::writer::{format_price, generate_yaml, u64_text};

fn usd(x: f64) -> Nanos {
    (x * 1_000_000_000.0).round() as Nanos
}

fn entry(input: Option<f64>, per_minute: Option<f64>) -> CatalogEntry {
    CatalogEntry {
        id: "m".into(),
        provider: "p".into(),
        status: "active".into(),
        context_window: None,
        max_output_tokens: None,
        pricing: PricingEntry {
            input: input.map(usd),
            output: None,
            per_minute: per_minute.map(usd),
            per_million_chars: None,
        },
        confidence: "official".into(),
    }
}

#[test]
fn input_price_falls_back_to_per_minute_when_token_price_is_zero() {
    assert_eq!(entry(Some(0.0), Some(0.0065)).input_price(), Some(usd(0.0065)));
}

#[test]
fn input_price_prefers_a_real_token_price() {
    assert_eq!(entry(Some(0.95), Some(0.0065)).input_price(), Some(usd(0.95)));
}

#[test]
fn input_price_uses_per_minute_when_token_price_absent() {
    assert_eq!(entry(None, Some(0.0065)).input_price(), Some(usd(0.0065)));
}

fn catalog_entry(id: &str, confidence: &str, input: Option<f64>, output: Option<f64>) -> CatalogEntry {
    CatalogEntry {
        id: id.into(),
        provider: "moonshot".into(),
        status: "active".into(),
        context_window: None,
        max_output_tokens: None,
        pricing: PricingEntry {
            input: input.map(usd),
            output: output.map(usd),
            per_minute: None,
            per_million_chars: None,
        },
        confidence: confidence.into(),
    }
}

fn scraped(id: &str, input: Option<f64>, output: Option<f64>) -> ScrapedModel {
    ScrapedModel {
        id: id.into(),
        provider: "moonshot".into(),
        input_price: input.map(usd),
        output_price: output.map(usd),
        source_url: "https://example.com".into(),
        ..Default::default()
    }
}

fn has_price_change(results: &[DiffResult]) -> bool {
    results.iter().any(|r| matches!(r, DiffResult::PriceChanged { .. }))
}

#[test]
fn catalog_matching_any_scraped_tier_is_not_drift() {
    let catalog = vec![catalog_entry("nova", "official", Some(0.0077), None)];
    let mut m = scraped("nova", Some(0.0048), None);
    m.input_price_candidates = vec![usd(0.0077)];
    let results = diff(&vec![m], &catalog);
    assert!(!has_price_change(&results), "catalog value matches a published tier — no drift expected");
}

#[test]
fn catalog_matching_no_scraped_tier_is_drift() {
    let catalog = vec![catalog_entry("nova", "official", Some(0.99), None)];
    let mut m = scraped("nova", Some(0.0048), None);
    m.input_price_candidates = vec![usd(0.0077)];
    let results = diff(&vec![m], &catalog);
    assert!(has_price_change(&results), "catalog value matches no published tier — drift expected");
}

#[test]
fn price_drift_on_official_entry_is_a_drift_alert() {
    let catalog = vec![catalog_entry("kimi", "official", Some(0.95), Some(4.00))];
    let results = diff(&vec![scraped("kimi", Some(1.90), Some(8.00))], &catalog);
    match results.as_slice() {
        [DiffResult::PriceChanged { kind, old_input, .. }] => {
            assert_eq!(*kind, PriceChangeKind::DriftAlert);
            assert_eq!(*old_input, Some(usd(0.95)));
        }
        other => panic!("expected one DriftAlert PriceChanged, got {other:?}"),
    }
}

#[test]
fn price_drift_on_inferred_stub_is_enrichable() {
    let catalog = vec![catalog_entry("kimi", "inferred", Some(0.0), Some(0.0))];
    let results = diff(&vec![scraped("kimi", Some(0.95), Some(4.00))], &catalog);
    match results.as_slice() {
        [DiffResult::PriceChanged { kind, .. }] => {
            assert_eq!(*kind, PriceChangeKind::Enrich);
        }
        other => panic!("expected one Enrich PriceChanged, got {other:?}"),
    }
}

#[test]
fn matching_price_produces_no_change() {
    let catalog = vec![catalog_entry("kimi", "official", Some(0.95), Some(4.00))];
    let results = diff(&vec![scraped("kimi", Some(0.95), Some(4.00))], &catalog);
    assert!(!has_price_change(&results), "no PriceChanged expected when prices match");
}

fn five_active_models() -> Vec<CatalogEntry> {
    ["m1", "m2", "m3", "m4", "m5"]
        .iter()
        .map(|id| catalog_entry(id, "official", Some(1.0), Some(1.0)))
        .collect()
}

#[test]
fn missing_from_docs_suppressed_when_coverage_is_low() {
    let results = diff(&vec![scraped("m1", Some(1.0), Some(1.0))], &five_active_models());
    assert!(
        !results.iter().any(|r| matches!(r, DiffResult::MissingFromDocs { .. })),
        "missing should be suppressed below the coverage threshold"
    );
}

#[test]
fn missing_from_docs_emitted_when_coverage_is_high() {
    let found: Vec<ScrapedModel> = ["m1", "m2", "m3", "m4"]
        .iter()
        .map(|id| scraped(id, Some(1.0), Some(1.0)))
        .collect();
    let results = diff(&found, &five_active_models());
    let missing: Vec<&str> = results
        .iter()
        .filter_map(|r| match r {
            DiffResult::MissingFromDocs { id, .. } => Some(id.as_str()),
            _ => None,
        })
        .collect();
    assert_eq!(missing, vec!["m5"]);
}

#[test]
fn diff_reports_new_models_in_scrape_order() {
    let catalog = vec![catalog_entry("known", "official", Some(1.0), Some(1.0))];
    let results = diff(
        &vec![scraped("fresh-b", None, None), scraped("known", Some(1.0), Some(1.0)), scraped("fresh-a", None, None)],
        &catalog,
    );
    let new_ids: Vec<&str> = results
        .iter()
        .filter_map(|r| match r {
            DiffResult::New(m) => Some(m.id.as_str()),
            _ => None,
        })
        .collect();
    assert_eq!(new_ids, vec!["fresh-b", "fresh-a"]);
}

#[test]
fn price_within_tolerance_is_not_drift() {
    // 0.0005 apart is within the 0.001 tolerance.
    let catalog = vec![catalog_entry("kimi", "official", Some(0.9505), None)];
    let results = diff(&vec![scraped("kimi", Some(0.95), None)], &catalog);
    assert!(!has_price_change(&results));
}

#[test]
fn yaml_path_is_under_the_provider_directory() {
    let m = scraped("kimi-k2", None, None);
    assert_eq!(m.yaml_path_relative(), "models/moonshot/kimi-k2.yaml");
}

const PER_MIN_LO: Nanos = 1_000_000;
const PER_MIN_HI: Nanos = 500_000_000;
const PER_MTOK_LO: Nanos = 0;
const PER_MTOK_HI: Nanos = 10_000_000_000_000;

#[test]
fn unit_price_reads_first_per_minute_rate() {
    let s = "Streaming $0.0077/min. Batch $0.0043/min.";
    assert_eq!(first_unit_price(s, "/min", PER_MIN_LO, PER_MIN_HI), Some(usd(0.0077)));
}

#[test]
fn unit_price_tolerates_space_before_unit() {
    assert_eq!(first_unit_price("$0.0065 /min", "/min", PER_MIN_LO, PER_MIN_HI), Some(usd(0.0065)));
}

#[test]
fn unit_price_skips_out_of_range_dollar_amounts() {
    let s = "Pay $99/mo or $0.0058/min as you go";
    assert_eq!(first_unit_price(s, "/min", PER_MIN_LO, PER_MIN_HI), Some(usd(0.0058)));
}

#[test]
fn unit_price_returns_none_when_absent() {
    assert_eq!(first_unit_price("no prices here", "/min", PER_MIN_LO, PER_MIN_HI), None);
}

#[test]
fn per_million_token_price_matches_common_spellings() {
    assert_eq!(first_per_million_token_price("$0.50/1M", PER_MTOK_LO, PER_MTOK_HI), Some(usd(0.50)));
    assert_eq!(first_per_million_token_price("$3.00 /MTok", PER_MTOK_LO, PER_MTOK_HI), Some(usd(3.00)));
    assert_eq!(
        first_per_million_token_price("Input: $1.25 per 1M tokens", PER_MTOK_LO, PER_MTOK_HI),
        Some(usd(1.25))
    );
    assert_eq!(
        first_per_million_token_price("$2,000 per million", PER_MTOK_LO, PER_MTOK_HI),
        Some(usd(2000.0))
    );
}

#[test]
fn per_million_token_price_ignores_bare_dollar_amounts() {
    assert_eq!(
        first_per_million_token_price("Get $20 credit. Output $10.00/1M tokens.", PER_MTOK_LO, PER_MTOK_HI),
        Some(usd(10.00))
    );
}

#[test]
fn all_unit_prices_lists_every_rate_in_order() {
    let s = "$0.0077/min and $0.0043/MIN, not $5/min";
    assert_eq!(all_unit_prices(s, "/min", PER_MIN_LO, PER_MIN_HI), vec![usd(0.0077), usd(0.0043)]);
}

#[test]
fn price_amounts_round_half_up_beyond_nine_decimals() {
    assert_eq!(first_unit_price("$0.0010000005/min", "/min", PER_MIN_LO, PER_MIN_HI), Some(1_000_001));
}

// ── Deepgram ────────────────────────────────────────────────────────────────

const DOCS_URL: &str = "https://developers.deepgram.com/docs/models-languages-overview";
const PRICING_URL: &str = "https://deepgram.com/pricing";

fn code_page(codes: &[&str]) -> PageParts {
    PageParts {
        code_texts: codes.iter().map(|c| c.to_string()).collect(),
        json_blobs: vec![],
        links: vec![],
    }
}

fn ids(out: &SpiderOutput) -> Vec<String> {
    let mut v: Vec<String> = out.items.iter().map(|m| m.id.clone()).collect();
    v.sort();
    v
}

fn docs(codes: &[&str]) -> SpiderOutput {
    let res = HtmlResponse { url: DOCS_URL, body: "" };
    DeepgramSpider.scrape_docs(&res, &code_page(codes))
}

#[test]
fn aura_base_family_collapses_voice_variants_only() {
    assert_eq!(aura_base_family("aura-2-thalia-en"), Some("aura-2"));
    assert_eq!(aura_base_family("aura-2-andromeda-en"), Some("aura-2"));
    assert_eq!(aura_base_family("aura-1-asteria-en"), Some("aura-1"));
    assert_eq!(aura_base_family("aura-2"), None);
    assert_eq!(aura_base_family("aura-1"), None);
    assert_eq!(aura_base_family("nova-3-general"), None);
}

#[test]
fn docs_collapses_aura_voice_variants_to_base_family() {
    let out = docs(&["aura-2-thalia-en", "aura-2-andromeda-en", "aura-2-hera-en", "aura-1-asteria-en"]);
    let got = ids(&out);
    assert!(got.contains(&"aura-2".to_string()), "expected base aura-2: {got:?}");
    assert!(got.contains(&"aura-1".to_string()), "expected base aura-1: {got:?}");
    assert!(
        !got.iter().any(|id| id.starts_with("aura-2-") || id.starts_with("aura-1-")),
        "voice variants leaked through: {got:?}"
    );
}

#[test]
fn docs_keeps_bare_aura_family_when_already_present() {
    let out = docs(&["aura-2", "aura-2-thalia-en"]);
    assert_eq!(ids(&out), vec!["aura-2".to_string()]);
}

#[test]
fn docs_surfaces_bare_flux_from_flux_variant() {
    let out = docs(&["flux-general-en"]);
    let got = ids(&out);
    assert!(got.contains(&"flux".to_string()), "bare flux not surfaced: {got:?}");
    assert!(got.contains(&"flux-general-en".to_string()), "variant dropped: {got:?}");
}

#[test]
fn docs_no_flux_when_no_flux_variant() {
    let out = docs(&["nova-3-general"]);
    assert!(!ids(&out).contains(&"flux".to_string()));
}

#[test]
fn pricing_surfaces_bare_flux_family() {
    let html = "<div>turn detection, natural interruption</div>\
                <span>$0.0065/min</span><span>$0.0050/min</span>";
    let res = HtmlResponse { url: PRICING_URL, body: html };
    let out = DeepgramSpider.scrape_pricing(&res);
    let got = ids(&out);
    assert!(got.contains(&"flux".to_string()), "bare flux not surfaced: {got:?}");
    assert!(got.contains(&"flux-general-en".to_string()), "variant dropped: {got:?}");
}

#[test]
fn pricing_row_takes_first_rate_and_keeps_the_second_as_candidate() {
    let html = "<p>highest performing model</p><span>$0.0077/min</span><span>$0.0065/min</span><span>$0.0043/min</span>";
    let res = HtmlResponse { url: PRICING_URL, body: html };
    let out = DeepgramSpider.scrape_pricing(&res);
    assert_eq!(out.items.len(), 1);
    let m = &out.items[0];
    assert_eq!(m.id, "nova-3-general");
    assert_eq!(m.provider, "deepgram");
    assert_eq!(m.input_price, Some(usd(0.0077)));
    assert_eq!(m.input_price_candidates, vec![usd(0.0065)]);
    assert_eq!(m.source_url, PRICING_URL);
}

#[test]
fn rates_outside_the_row_window_are_not_read() {
    let far = format!("highest performing model{}$0.0077/min", " ".repeat(700));
    assert!(per_min_rates_after(&far, "highest performing model").is_empty());
    assert!(per_min_rates_after("nothing here $0.0077/min", "highest performing model").is_empty());
}

#[test]
fn row_window_counts_bytes_not_characters() {
    let near = format!("highest performing model{} $0.0077/min", "\u{e9}".repeat(300));
    assert_eq!(per_min_rates_after(&near, "highest performing model"), vec![usd(0.0077)]);
    let far = format!("highest performing model{} $0.0077/min", "\u{e9}".repeat(338));
    assert!(per_min_rates_after(&far, "highest performing model").is_empty());
}

#[test]
fn scrape_dispatches_on_pricing_url() {
    let html = "<div>turn detection, natural interruption</div><span>$0.0065/min</span>";
    let res = HtmlResponse { url: PRICING_URL, body: html };
    let out = DeepgramSpider.scrape(&res, &code_page(&["nova-3-general"]));
    assert_eq!(ids(&out), vec!["flux".to_string(), "flux-general-en".to_string()]);
    let res = HtmlResponse { url: DOCS_URL, body: html };
    let out = DeepgramSpider.scrape(&res, &code_page(&["nova-3-general"]));
    assert_eq!(ids(&out), vec!["nova-3-general".to_string()]);
}

#[test]
fn normalize_family_ids_dedups_in_order() {
    let got = normalize_family_ids(&vec![
        "aura-2-thalia-en".to_string(),
        "flux-general-en".to_string(),
        "aura-2".to_string(),
        "nova-3".to_string(),
    ]);
    assert_eq!(got, vec!["aura-2", "flux-general-en", "nova-3", "flux"]);
}

#[test]
fn deepgram_start_urls_are_docs_then_pricing() {
    assert_eq!(DeepgramSpider.start_urls(), vec![DOCS_URL.to_string(), PRICING_URL.to_string()]);
    assert_eq!(DeepgramSpider.name(), "deepgram");
}

// ── DeepSeek ────────────────────────────────────────────────────────────────

#[test]
fn deepseek_sends_bearer_key_and_lists_models() {
    let spider = DeepSeekSpider::new("sk-test".to_string());
    assert_eq!(spider.headers(), vec![("Authorization".to_string(), "Bearer sk-test".to_string())]);
    assert_eq!(spider.start_urls(), vec!["https://api.deepseek.com/v1/models".to_string()]);
    let out = spider.scrape(&vec!["deepseek-chat".to_string(), "deepseek-reasoner".to_string()]);
    let got: Vec<&str> = out.items.iter().map(|m| m.id.as_str()).collect();
    assert_eq!(got, vec!["deepseek-chat", "deepseek-reasoner"]);
    assert!(out.items.iter().all(|m| m.provider == "deepseek" && m.source_url == "https://api.deepseek.com/v1/models"));
    assert!(out.follow_urls.is_empty());
}

// ── Crawl frontier ──────────────────────────────────────────────────────────

#[test]
fn frontier_fetches_each_url_once() {
    let mut f = Frontier::new(vec!["a".to_string(), "b".to_string(), "a".to_string()]);
    assert_eq!(f.next_url(), Some("a".to_string()));
    f.record(SpiderOutput::new().follow("b".to_string()).follow("a".to_string()).follow("c".to_string()));
    assert_eq!(f.next_url(), Some("b".to_string()));
    f.record(SpiderOutput::new());
    // The queued "a" and the second "b" are skipped: both were fetched.
    assert_eq!(f.next_url(), Some("c".to_string()));
    f.record(SpiderOutput::new().items(vec![scraped("m", None, None)]));
    assert_eq!(f.next_url(), None);
    assert_eq!(f.visited, vec!["a".to_string(), "b".to_string(), "c".to_string()]);
    let results = f.into_results();
    assert_eq!(results.len(), 1);
    assert_eq!(results[0].id, "m");
}

// ── Writer ──────────────────────────────────────────────────────────────────

#[test]
fn prices_are_written_in_shortest_decimal() {
    assert_eq!(format_price(usd(0.0065)), "0.0065");
    assert_eq!(format_price(usd(3.0)), "3");
    assert_eq!(format_price(usd(12.5)), "12.5");
    assert_eq!(format_price(0), "0");
    assert_eq!(format_price(-usd(0.5)), "-0.5");
    assert_eq!(u64_text(128000), "128000");
    assert_eq!(u64_text(0), "0");
}

#[test]
fn generate_yaml_writes_a_scraped_stub() {
    let m = ScrapedModel {
        id: "kimi-k2".into(),
        provider: "moonshot".into(),
        display_name: Some("Kimi K2".into()),
        context_window: Some(128000),
        max_output_tokens: None,
        input_price: Some(usd(0.6)),
        input_price_candidates: vec![],
        output_price: Some(usd(2.5)),
        source_url: "https://platform.moonshot.ai/docs".into(),
    };
    let y = generate_yaml(&m, "2026-05-10");
    assert!(y.starts_with("id: kimi-k2\nprovider: moonshot\ndisplay_name: Kimi K2\nstatus: active\n"));
    assert!(y.contains("\ncontext_window: 128000\nmax_output_tokens: 0\n"));
    assert!(y.contains("pricing:\n  currency: USD\n  input: 0.6\n  output: 2.5\nlast_verified: 2026-05-10\n"));
    assert!(y.ends_with("sources:\n  - url: https://platform.moonshot.ai/docs\n    last_verified: 2026-05-10\n"));
    let bare = generate_yaml(&scraped("x-1", None, None), "2026-01-01");
    assert!(bare.contains("display_name: x-1\n"));
    assert!(bare.contains("  input: 0\n  output: 0\n"));
}

// ── Run plan ────────────────────────────────────────────────────────────────

#[test]
fn run_plan_covers_all_or_the_named_provider() {
    assert!(should_run("all", "anthropic"));
    assert!(should_run("anthropic", "anthropic"));
    assert!(!should_run("openai", "anthropic"));
    assert!(unknown_selection("nosuch", 0));
    assert!(!unknown_selection("nosuch", 3));
    assert!(!unknown_selection("all", 0));
    assert!(!unknown_selection("anthropic", 0));
    assert!(!unknown_selection("deepgram", 0));
    assert_eq!(custom_provider_names().len(), 20);
    let pages = simple_provider_pages();
    assert_eq!(pages.len(), 40);
    assert_eq!(pages[0], ("adobe".to_string(), "https://developer.adobe.com/firefly-api/docs/guides/models/".to_string()));
}

// ── HTML ────────────────────────────────────────────────────────────────────


#[test]
fn page_parts_reads_code_blocks_and_links() {
    let html = r#"<html><body><p>Use <code>gpt-4o-mini</code> or</p><pre>o3-pro-2025</pre>
        <a href="/docs/models/a">A</a><a name="x">no href</a><a href="https://x.example/b">B</a></body></html>"#;
    let page = page_parts(html, vec![]);
    assert_eq!(page.code_texts, vec!["gpt-4o-mini".to_string(), "o3-pro-2025".to_string()]);
    assert_eq!(page.links, vec!["/docs/models/a".to_string(), "https://x.example/b".to_string()]);
    assert_eq!(page_links(html), page.links);
}

#[test]
fn json_scripts_are_next_data_or_typed_json() {
    let html = r#"<script id="__NEXT_DATA__">{"a":1}</script><script>var x = 1;</script>
        <script type="application/json">{"b":2}</script><script type="application/json"></script>"#;
    assert_eq!(json_script_texts(html), vec![r#"{"a":1}"#.to_string(), r#"{"b":2}"#.to_string()]);
}

#[test]
fn follow_links_from_html_are_joined_and_deduplicated() {
    let html = r##"<a href="/model-cards/a">a</a><a href="/model-cards/a">again</a>
        <a href="/model-cards/b#top">anchor</a><a href="https://docs.example/model-cards/c">c</a>
        <a href="relative/model-cards/d">relative</a><a href="/other">other</a>"##;
    assert_eq!(
        extract_follow_links(html, "https://docs.example/", "/model-cards/"),
        vec!["https://docs.example/model-cards/a".to_string(), "https://docs.example/model-cards/c".to_string()]
    );
}

#[test]
fn card_parts_reads_headings_buttons_and_sections() {
    let html = r#"<h1> Gemini 2.5 Pro </h1><button>copy</button><button>mistral-medium-3</button>
        <section><b>Input token limit</b><p>first</p><p>1,048,576</p></section><section><p>only one</p></section>"#;
    let card = card_parts(html);
    assert_eq!(card.headings, vec![" Gemini 2.5 Pro ".to_string()]);
    assert_eq!(card.buttons, vec!["copy".to_string(), "mistral-medium-3".to_string()]);
    assert_eq!(card.sections.len(), 2);
    assert_eq!(card.sections[0].label, "Input token limit");
    assert_eq!(card.sections[0].value, "1,048,576");
    assert_eq!(card.sections[1].label, "");
    assert_eq!(card.sections[1].value, "");
}

#[test]
fn anthropic_tables_yield_one_model_per_column() {
    let html = r#"<table><thead><tr><th>Feature</th><th>Opus 4</th><th>Haiku 3</th></tr></thead><tbody>
        <tr><td>API id</td><td> opus-4-0 </td><td>haiku-3-0</td></tr>
        <tr><td>Pricing</td><td>$15 / input MTok
$75 / output MTok</td><td>$0.25 / input MTok</td></tr>
        <tr><td>Context window</td><td>200K</td><td>200K</td></tr></tbody></table>"#;
    let raw = raw_tables(html);
    assert_eq!(raw.len(), 1);
    assert_eq!(raw[0].headers, vec!["Feature".to_string(), "Opus 4".to_string(), "Haiku 3".to_string()]);
    assert_eq!(raw[0].rows.len(), 3);
    let tables = vec![Table {
        headers: raw[0].headers.clone(),
        rows: raw[0]
            .rows
            .iter()
            .map(|r| {
                r.iter()
                    .map(|t| Cell { text: t.clone(), size: if t.trim() == "200K" { Some(200_000) } else { None } })
                    .collect()
            })
            .collect(),
    }];
    let out = AnthropicSpider.scrape(&tables);
    assert_eq!(out.items.len(), 2);
    let opus = &out.items[0];
    assert_eq!(opus.id, "opus-4-0");
    assert_eq!(opus.provider, "anthropic");
    assert_eq!(opus.display_name.as_deref(), Some("Opus 4"));
    assert_eq!(opus.input_price, Some(usd(15.0)));
    assert_eq!(opus.output_price, Some(usd(75.0)));
    assert_eq!(opus.context_window, Some(200_000));
    assert_eq!(out.items[1].id, "haiku-3-0");
    assert_eq!(out.items[1].input_price, Some(usd(0.25)));
    assert_eq!(out.items[1].output_price, None);
}

#[test]
fn model_ids_in_text_drop_surrounding_punctuation() {
    assert_eq!(ids_in_text("use (gpt-4o-mini), or «o3-pro-2025»."), vec!["gpt-4o-mini".to_string(), "o3-pro-2025".to_string()]);
    assert!(looks_like_model_id("gpt-4o-mini"));
    assert!(!looks_like_model_id("gpt"));
}
