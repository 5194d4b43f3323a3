//! What the scraper reads from provider pages, and the catalog entries it is
//! compared against. Prices are in billionths of a currency unit.
use vstd::prelude::*;
use crate::catalog::Nanos;

verus! {

/// A model as one provider page describes it.
#[derive(Clone, Debug, Default)]
pub struct ScrapedModel {
    pub id: String,
    pub provider: String,
    pub display_name: Option<String>,
    pub context_window: Option<u64>,
    pub max_output_tokens: Option<u64>,
    pub input_price: Option<Nanos>,
    /// Further input prices that the page lists for the same model (billing
    /// tiers); the catalog need only match one of them, or `input_price`.
    pub input_price_candidates: Vec<Nanos>,
    pub output_price: Option<Nanos>,
    pub source_url: String,
}

pub fn copy_opt_string(v: &Option<String>) -> (r: Option<String>)
    ensures
        r == *v,
{
    match v {
        Some(s) => Some(s.clone()),
        None => None,
    }
}

pub fn copy_prices(v: &Vec<Nanos>) -> (r: Vec<Nanos>)
    ensures
        r@ == v@,
{
    let mut out: Vec<Nanos> = Vec::new();
    let mut i: usize = 0;
    while i < v.len()
        invariant
            i <= v.len(),
            out@ == v@.take(i as int),
        decreases v.len() - i,
    {
        out.push(v[i]);
        i = i + 1;
        proof {
            assert(out@ =~= v@.take(i as int));
        }
    }
    proof {
        assert(v@.take(v.len() as int) =~= v@);
    }
    out
}

impl ScrapedModel {
    /// An exact copy.
    pub fn copy(&self) -> (r: ScrapedModel)
        ensures
            r.id == self.id,
            r.provider == self.provider,
            r.display_name == self.display_name,
            r.context_window == self.context_window,
            r.max_output_tokens == self.max_output_tokens,
            r.input_price == self.input_price,
            r.input_price_candidates@ == self.input_price_candidates@,
            r.output_price == self.output_price,
            r.source_url == self.source_url,
    {
        ScrapedModel {
            id: self.id.clone(),
            provider: self.provider.clone(),
            display_name: copy_opt_string(&self.display_name),
            context_window: self.context_window,
            max_output_tokens: self.max_output_tokens,
            input_price: self.input_price,
            input_price_candidates: copy_prices(&self.input_price_candidates),
            output_price: self.output_price,
            source_url: self.source_url.clone(),
        }
    }

    /// Where the catalog keeps this model: `models/<provider>/<id>.yaml`.
    pub fn yaml_path_relative(&self) -> (r: String)
        ensures
            r@ == "models/"@ + self.provider@ + "/"@ + self.id@ + ".yaml"@,
    {
        let mut p = "models/".to_owned();
        p.append(self.provider.as_str());
        p.append("/");
        p.append(self.id.as_str());
        p.append(".yaml");
        p
    }
}

/// Two scraped models that hold the same values.
pub open spec fn same_scraped(a: ScrapedModel, b: ScrapedModel) -> bool {
    &&& a.id == b.id
    &&& a.provider == b.provider
    &&& a.display_name == b.display_name
    &&& a.context_window == b.context_window
    &&& a.max_output_tokens == b.max_output_tokens
    &&& a.input_price == b.input_price
    &&& a.input_price_candidates@ == b.input_price_candidates@
    &&& a.output_price == b.output_price
    &&& a.source_url == b.source_url
}

#[derive(Clone, Debug, Default)]
pub struct PricingEntry {
    pub input: Option<Nanos>,
    pub output: Option<Nanos>,
    pub per_minute: Option<Nanos>,
    pub per_million_chars: Option<Nanos>,
}

/// A model as the catalog holds it, with the fields that the comparison reads.
#[derive(Clone, Debug)]
pub struct CatalogEntry {
    pub id: String,
    pub provider: String,
    pub status: String,
    pub context_window: Option<u64>,
    pub max_output_tokens: Option<u64>,
    pub pricing: PricingEntry,
    /// `official` entries are human-verified; others may be enriched.
    pub confidence: String,
}

/// The entry's input price: the token price when it is above zero, else the
/// per-minute price (audio models carry a placeholder token price of zero).
pub open spec fn entry_input_price(e: CatalogEntry) -> Option<Nanos> {
    match e.pricing.input {
        Some(v) => if v > 0 {
            Some(v)
        } else {
            e.pricing.per_minute
        },
        None => e.pricing.per_minute,
    }
}

pub open spec fn entry_is_official(e: CatalogEntry) -> bool {
    e.confidence@ == "official"@
}

impl CatalogEntry {
    /// Whether the entry is human-verified (`official`).
    pub fn is_official(&self) -> (r: bool)
        ensures
            r == entry_is_official(*self),
    {
        let o = "official".to_owned();
        self.confidence == o
    }

    /// The input price to compare against: see `entry_input_price`.
    pub fn input_price(&self) -> (r: Option<Nanos>)
        ensures
            r == entry_input_price(*self),
    {
        match self.pricing.input {
            Some(v) => if v > 0 {
                Some(v)
            } else {
                self.pricing.per_minute
            },
            None => self.pricing.per_minute,
        }
    }

    pub fn output_price(&self) -> (r: Option<Nanos>)
        ensures
            r == self.pricing.output,
    {
        self.pricing.output
    }
}

} // verus!
