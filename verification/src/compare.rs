//! Side-by-side comparison of two to five models named by `provider/id`.
use vstd::prelude::*;
use crate::catalog::{Model, Nanos, Pricing};
use crate::error::{ApiError, error_view};
use crate::state::{AppState, has_ref, last_where, model_ref_index};
use crate::text::{split, split_seq, string_of_range, to_chars, trim, trim_seq, views};

verus! {

/// The position of the first `/` in the text.
pub open spec fn first_slash(s: Seq<char>) -> Option<int>
    decreases s.len(),
{
    if s.len() == 0 {
        None
    } else if s[0] == '/' {
        Some(0)
    } else {
        match first_slash(s.drop_first()) {
            Some(i) => Some(i + 1),
            None => None,
        }
    }
}

/// A trimmed `provider/id` reference split at its first `/`; both sides are
/// trimmed and must not be empty.
pub open spec fn ref_parts(part: Seq<char>) -> Option<(Seq<char>, Seq<char>)> {
    match first_slash(part) {
        None => None,
        Some(i) => {
            let p = trim_seq(part.take(i));
            let id = trim_seq(part.skip(i + 1));
            if p.len() == 0 || id.len() == 0 {
                None
            } else {
                Some((p, id))
            }
        },
    }
}

/// The distinct references of the comma-separated pieces, in order of first
/// appearance, skipping blank pieces; `None` when a piece is malformed.
pub open spec fn refs_of_pieces(ps: Seq<Seq<char>>) -> Option<Seq<(Seq<char>, Seq<char>)>>
    decreases ps.len(),
{
    if ps.len() == 0 {
        Some(Seq::empty())
    } else {
        match refs_of_pieces(ps.drop_last()) {
            None => None,
            Some(acc) => {
                let part = trim_seq(ps.last());
                if part.len() == 0 {
                    Some(acc)
                } else {
                    match ref_parts(part) {
                        None => None,
                        Some(r) => if acc.contains(r) {
                            Some(acc)
                        } else {
                            Some(acc.push(r))
                        },
                    }
                }
            },
        }
    }
}

pub open spec fn compare_refs(raw: Seq<char>) -> Option<Seq<(Seq<char>, Seq<char>)>> {
    refs_of_pieces(split_seq(raw, ','))
}

pub open spec fn pair_views(v: Seq<(String, String)>) -> Seq<(Seq<char>, Seq<char>)> {
    v.map_values(|p: (String, String)| (p.0@, p.1@))
}

proof fn lemma_first_slash_found(s: Seq<char>, i: int)
    requires
        0 <= i < s.len(),
        s[i] == '/',
        forall|j: int| 0 <= j < i ==> s[j] != '/',
    ensures
        first_slash(s) == Some(i),
    decreases i,
{
    if i > 0 {
        lemma_first_slash_found(s.drop_first(), i - 1);
    }
}

proof fn lemma_first_slash_absent(s: Seq<char>)
    requires
        forall|j: int| 0 <= j < s.len() ==> s[j] != '/',
    ensures
        first_slash(s) is None,
    decreases s.len(),
{
    if s.len() > 0 {
        lemma_first_slash_absent(s.drop_first());
    }
}

/// Splits a trimmed, non-empty reference at its first `/`.
fn split_ref(part: &String) -> (r: Option<(String, String)>)
    ensures
        match r {
            Some(x) => ref_parts(part@) == Some((x.0@, x.1@)),
            None => ref_parts(part@) is None,
        },
{
    let v = to_chars(part.as_str());
    let mut i: usize = 0;
    while i < v.len()
        invariant
            i <= v.len(),
            v@ == part@,
            forall|j: int| 0 <= j < i ==> v@[j] != '/',
        decreases v.len() - i,
    {
        if v[i] == '/' {
            proof {
                lemma_first_slash_found(v@, i as int);
                assert(v@.subrange(0, i as int) =~= v@.take(i as int));
                assert(v@.subrange(i + 1, v.len() as int) =~= v@.skip(i + 1));
            }
            let p = trim(string_of_range(&v, 0, i).as_str());
            let id = trim(string_of_range(&v, i + 1, v.len()).as_str());
            if p.as_str().is_empty() || id.as_str().is_empty() {
                return None;
            }
            return Some((p, id));
        }
        i = i + 1;
    }
    proof {
        lemma_first_slash_absent(v@);
    }
    None
}

fn contains_pair(v: &Vec<(String, String)>, x: &(String, String)) -> (r: bool)
    ensures
        r == pair_views(v@).contains((x.0@, x.1@)),
{
    let mut i: usize = 0;
    while i < v.len()
        invariant
            i <= v.len(),
            forall|j: int| 0 <= j < i ==> pair_views(v@)[j] != (x.0@, x.1@),
        decreases v.len() - i,
    {
        if v[i].0 == x.0 && v[i].1 == x.1 {
            proof {
                assert(pair_views(v@)[i as int] == (x.0@, x.1@));
            }
            return true;
        }
        proof {
            assert(pair_views(v@)[i as int] == (v@[i as int].0@, v@[i as int].1@));
        }
        i = i + 1;
    }
    false
}

/// The distinct `provider/id` references of a comma-separated list.
pub fn parse_model_refs(raw: &str) -> (r: Result<Vec<(String, String)>, ApiError>)
    ensures
        match compare_refs(raw@) {
            Some(refs) => r matches Ok(v) && pair_views(v@) == refs,
            None => r matches Err(e) && error_view(e) == (
                3int,
                "models must use provider/id references"@,
                Seq::<char>::empty(),
            ),
        },
{
    let pieces = split(raw, ',');
    let ghost ps = split_seq(raw@, ',');
    let mut refs: Vec<(String, String)> = Vec::new();
    let mut k: usize = 0;
    proof {
        assert(ps.take(0) =~= Seq::<Seq<char>>::empty());
        assert(pair_views(refs@) =~= Seq::<(Seq<char>, Seq<char>)>::empty());
    }
    while k < pieces.len()
        invariant
            k <= pieces.len(),
            views(pieces@) == ps,
            ps == split_seq(raw@, ','),
            refs_of_pieces(ps.take(k as int)) == Some(pair_views(refs@)),
        decreases pieces.len() - k,
    {
        proof {
            assert(ps.take(k + 1).drop_last() =~= ps.take(k as int));
            assert(ps.take(k + 1).last() == pieces@[k as int]@);
        }
        let part = trim(pieces[k].as_str());
        if !part.as_str().is_empty() {
            match split_ref(&part) {
                None => {
                    proof {
                        lemma_refs_none_stays(ps, k as int + 1);
                    }
                    return Err(ApiError::BadRequest { message: "models must use provider/id references".to_owned() });
                },
                Some(x) => {
                    if !contains_pair(&refs, &x) {
                        let ghost before = refs@;
                        refs.push(x);
                        proof {
                            assert(pair_views(refs@) =~= pair_views(before).push((x.0@, x.1@)));
                        }
                    }
                },
            }
        }
        k = k + 1;
    }
    proof {
        assert(ps.take(ps.len() as int) =~= ps);
    }
    Ok(refs)
}

proof fn lemma_refs_none_stays(ps: Seq<Seq<char>>, k: int)
    requires
        0 <= k <= ps.len(),
        refs_of_pieces(ps.take(k)) is None,
    ensures
        refs_of_pieces(ps) is None,
    decreases ps.len() - k,
{
    if k < ps.len() {
        assert(ps.take(k + 1).drop_last() =~= ps.take(k));
        lemma_refs_none_stays(ps, k + 1);
    } else {
        assert(ps.take(k) =~= ps);
    }
}


#[derive(Debug)]
pub struct CheapestModel {
    pub model_id: String,
    pub provider: String,
    pub input_price: Nanos,
    pub currency: String,
}

#[derive(Debug)]
pub struct CheapestOutputModel {
    pub model_id: String,
    pub provider: String,
    pub output_price: Nanos,
    pub currency: String,
}

/// The prices of one compared model, with a cost that makes token, character
/// and minute prices comparable.
#[derive(Debug)]
pub struct PricingBreakdownEntry {
    pub model_id: String,
    pub provider: String,
    pub currency: Option<String>,
    pub input: Option<Nanos>,
    pub output: Option<Nanos>,
    pub cached_input: Option<Nanos>,
    pub batch_input: Option<Nanos>,
    pub batch_output: Option<Nanos>,
    pub request_fee: Option<Nanos>,
    pub search_fee: Option<Nanos>,
    pub reasoning: Option<Nanos>,
    pub per_image: Option<Nanos>,
    pub per_second: Option<Nanos>,
    pub per_minute: Option<Nanos>,
    pub per_million_chars: Option<Nanos>,
    pub per_page: Option<Nanos>,
    pub comparable_cost: Option<Nanos>,
}

#[derive(Debug)]
pub struct CompareSummary {
    pub max_context_window: u64,
    pub max_output_tokens: u64,
    pub cheapest_input: Option<CheapestModel>,
    pub cheapest_output: Option<CheapestOutputModel>,
    pub pricing_breakdown: Vec<PricingBreakdownEntry>,
}

/// The compared models, as positions in the catalog, and their summary.
#[derive(Debug)]
pub struct CompareResponse {
    pub models: Vec<usize>,
    pub summary: CompareSummary,
}

/// The value clamped into `i64`.
pub open spec fn clamp(x: int) -> int {
    if x > i64::MAX {
        i64::MAX as int
    } else if x < i64::MIN {
        i64::MIN as int
    } else {
        x
    }
}

/// A positive token price as is; else five times the price per million
/// characters; else 833 times the price per minute.
pub open spec fn comparable_cost_spec(p: Pricing) -> Option<int> {
    if p.input > 0 {
        Some(p.input as int)
    } else if p.per_million_chars is Some {
        Some(clamp(p.per_million_chars->0 * 5))
    } else if p.per_minute is Some {
        Some(clamp(p.per_minute->0 * 833))
    } else {
        None
    }
}

fn clamped_product(x: i64, k: i64) -> (r: i64)
    requires
        0 < k <= 1000,
    ensures
        r as int == clamp(x * k),
{
    assert((x as int) * (k as int) <= 1000 * 0x8000_0000_0000_0000 && (x as int) * (k as int)
        >= -1000 * 0x8000_0000_0000_0000) by (nonlinear_arith)
        requires
            0 < k <= 1000,
            -0x8000_0000_0000_0000 <= x < 0x8000_0000_0000_0000,
    ;
    let wide = (x as i128) * (k as i128);
    if wide > i64::MAX as i128 {
        i64::MAX
    } else if wide < i64::MIN as i128 {
        i64::MIN
    } else {
        wide as i64
    }
}

/// A cost for comparing models priced per token, per character or per minute.
pub fn comparable_cost(pricing: &Pricing) -> (r: Option<Nanos>)
    ensures
        match r {
            Some(v) => comparable_cost_spec(*pricing) == Some(v as int),
            None => comparable_cost_spec(*pricing) is None,
        },
{
    if pricing.input > 0 {
        return Some(pricing.input);
    }
    match pricing.per_million_chars {
        Some(pmc) => {
            return Some(clamped_product(pmc, 5));
        },
        None => {},
    }
    match pricing.per_minute {
        Some(pm) => Some(clamped_product(pm, 833)),
        None => None,
    }
}

/// The largest context window of the models, or 0.
pub open spec fn max_context(ms: Seq<Model>) -> int
    decreases ms.len(),
{
    if ms.len() == 0 {
        0
    } else {
        let m = max_context(ms.drop_last());
        if ms.last().context_window as int > m {
            ms.last().context_window as int
        } else {
            m
        }
    }
}

/// The largest output limit of the models, or 0.
pub open spec fn max_output(ms: Seq<Model>) -> int
    decreases ms.len(),
{
    if ms.len() == 0 {
        0
    } else {
        let m = max_output(ms.drop_last());
        if ms.last().max_output_tokens as int > m {
            ms.last().max_output_tokens as int
        } else {
            m
        }
    }
}

pub open spec fn price_at(m: Model, output: bool) -> int {
    if output {
        m.pricing->0.output as int
    } else {
        m.pricing->0.input as int
    }
}

/// The position of the first priced model with the lowest input price
/// (`output == false`) or output price.
pub open spec fn cheapest_at(ms: Seq<Model>, output: bool) -> Option<int>
    decreases ms.len(),
{
    if ms.len() == 0 {
        None
    } else {
        let prev = cheapest_at(ms.drop_last(), output);
        let m = ms.last();
        if m.pricing is None {
            prev
        } else {
            match prev {
                None => Some(ms.len() - 1),
                Some(j) => if price_at(m, output) < price_at(ms[j], output) {
                    Some(ms.len() - 1)
                } else {
                    prev
                },
            }
        }
    }
}

proof fn lemma_cheapest_priced(ms: Seq<Model>, output: bool)
    ensures
        cheapest_at(ms, output) matches Some(j) ==> 0 <= j < ms.len() && ms[j].pricing is Some,
    decreases ms.len(),
{
    if ms.len() > 0 {
        lemma_cheapest_priced(ms.drop_last(), output);
    }
}

pub open spec fn opt_nanos(v: Option<Nanos>) -> Option<int> {
    match v {
        Some(x) => Some(x as int),
        None => None,
    }
}

/// The breakdown entry shows the model's prices as they are.
pub open spec fn breakdown_of(e: PricingBreakdownEntry, m: Model) -> bool {
    &&& e.model_id@ == m.id@
    &&& e.provider@ == m.provider@
    &&& match m.pricing {
        None => {
            &&& e.currency is None
            &&& e.input is None && e.output is None && e.cached_input is None
            &&& e.batch_input is None && e.batch_output is None && e.request_fee is None
            &&& e.search_fee is None && e.reasoning is None && e.per_image is None
            &&& e.per_second is None && e.per_minute is None && e.per_million_chars is None
            &&& e.per_page is None && e.comparable_cost is None
        },
        Some(p) => {
            &&& e.currency matches Some(c) && c@ == p.currency@
            &&& e.input == Some(p.input) && e.output == Some(p.output)
            &&& e.cached_input == p.cached_input && e.batch_input == p.batch_input
            &&& e.batch_output == p.batch_output && e.request_fee == p.request_fee
            &&& e.search_fee == p.search_fee && e.reasoning == p.reasoning
            &&& e.per_image == p.per_image && e.per_second == p.per_second
            &&& e.per_minute == p.per_minute && e.per_million_chars == p.per_million_chars
            &&& e.per_page == p.per_page
            &&& opt_nanos(e.comparable_cost) == comparable_cost_spec(p)
        },
    }
}

fn breakdown_entry(m: &Model) -> (r: PricingBreakdownEntry)
    ensures
        breakdown_of(r, *m),
{
    match &m.pricing {
        None => PricingBreakdownEntry {
            model_id: m.id.clone(),
            provider: m.provider.clone(),
            currency: None,
            input: None,
            output: None,
            cached_input: None,
            batch_input: None,
            batch_output: None,
            request_fee: None,
            search_fee: None,
            reasoning: None,
            per_image: None,
            per_second: None,
            per_minute: None,
            per_million_chars: None,
            per_page: None,
            comparable_cost: None,
        },
        Some(p) => PricingBreakdownEntry {
            model_id: m.id.clone(),
            provider: m.provider.clone(),
            currency: Some(p.currency.clone()),
            input: Some(p.input),
            output: Some(p.output),
            cached_input: p.cached_input,
            batch_input: p.batch_input,
            batch_output: p.batch_output,
            request_fee: p.request_fee,
            search_fee: p.search_fee,
            reasoning: p.reasoning,
            per_image: p.per_image,
            per_second: p.per_second,
            per_minute: p.per_minute,
            per_million_chars: p.per_million_chars,
            per_page: p.per_page,
            comparable_cost: comparable_cost(p),
        },
    }
}

/// The compared models in order.
pub open spec fn chosen(ms: Seq<Model>, idx: Seq<usize>) -> Seq<Model> {
    idx.map_values(|i: usize| ms[i as int])
}

/// The summary states the largest context window and output limit, the
/// first cheapest model by input and by output price, and the prices of
/// every model in order.
pub open spec fn summary_of(r: CompareSummary, cs: Seq<Model>) -> bool {
    &&& r.max_context_window as int == max_context(cs)
    &&& r.max_output_tokens as int == max_output(cs)
    &&& match cheapest_at(cs, false) {
        Some(j) => r.cheapest_input matches Some(c) && c.model_id@ == cs[j].id@ && c.provider@
            == cs[j].provider@ && c.input_price == cs[j].pricing->0.input && c.currency@
            == cs[j].pricing->0.currency@,
        None => r.cheapest_input is None,
    }
    &&& match cheapest_at(cs, true) {
        Some(j) => r.cheapest_output matches Some(c) && c.model_id@ == cs[j].id@ && c.provider@
            == cs[j].provider@ && c.output_price == cs[j].pricing->0.output && c.currency@
            == cs[j].pricing->0.currency@,
        None => r.cheapest_output is None,
    }
    &&& r.pricing_breakdown@.len() == cs.len()
    &&& forall|k: int| 0 <= k < cs.len() ==> breakdown_of(#[trigger] r.pricing_breakdown@[k], cs[k])
}

/// The summary of the models at the positions `idx`.
pub fn summarize(models: &Vec<Model>, idx: &Vec<usize>) -> (r: CompareSummary)
    requires
        forall|k: int| 0 <= k < idx@.len() ==> idx@[k] < models.len(),
    ensures
        summary_of(r, chosen(models@, idx@)),
{
    let ghost cs = chosen(models@, idx@);
    let mut max_ctx: u64 = 0;
    let mut max_out: u64 = 0;
    let mut cheap_in: Option<usize> = None;
    let mut cheap_out: Option<usize> = None;
    let mut breakdown: Vec<PricingBreakdownEntry> = Vec::new();
    let mut k: usize = 0;
    proof {
        assert(cs.take(0) =~= Seq::<Model>::empty());
    }
    while k < idx.len()
        invariant
            k <= idx.len(),
            cs == chosen(models@, idx@),
            forall|t: int| 0 <= t < idx@.len() ==> idx@[t] < models.len(),
            cs.len() == idx.len(),
            max_ctx as int == max_context(cs.take(k as int)),
            max_out as int == max_output(cs.take(k as int)),
            match cheap_in {
                Some(j) => j < k && cheapest_at(cs.take(k as int), false) == Some(j as int),
                None => cheapest_at(cs.take(k as int), false) is None,
            },
            match cheap_out {
                Some(j) => j < k && cheapest_at(cs.take(k as int), true) == Some(j as int),
                None => cheapest_at(cs.take(k as int), true) is None,
            },
            breakdown@.len() == k,
            forall|t: int| 0 <= t < k ==> breakdown_of(#[trigger] breakdown@[t], cs[t]),
        decreases idx.len() - k,
    {
        let m = &models[idx[k]];
        proof {
            assert(cs.take(k + 1).drop_last() =~= cs.take(k as int));
            assert(cs.take(k + 1).last() == *m);
            lemma_cheapest_priced(cs.take(k as int), false);
            lemma_cheapest_priced(cs.take(k as int), true);
            match cheap_in {
                Some(j) => {
                    assert(cs.take(k + 1)[j as int] == cs.take(k as int)[j as int]);
                },
                None => {},
            }
            match cheap_out {
                Some(j) => {
                    assert(cs.take(k + 1)[j as int] == cs.take(k as int)[j as int]);
                },
                None => {},
            }
        }
        if m.context_window > max_ctx {
            max_ctx = m.context_window;
        }
        if m.max_output_tokens > max_out {
            max_out = m.max_output_tokens;
        }
        match &m.pricing {
            Some(p) => {
                cheap_in = match cheap_in {
                    None => Some(k),
                    Some(j) => {
                        let prev = &models[idx[j]];
                        let prev_in = match &prev.pricing {
                            Some(q) => q.input,
                            None => 0,
                        };
                        if p.input < prev_in {
                            Some(k)
                        } else {
                            Some(j)
                        }
                    },
                };
                cheap_out = match cheap_out {
                    None => Some(k),
                    Some(j) => {
                        let prev = &models[idx[j]];
                        let prev_out = match &prev.pricing {
                            Some(q) => q.output,
                            None => 0,
                        };
                        if p.output < prev_out {
                            Some(k)
                        } else {
                            Some(j)
                        }
                    },
                };
            },
            None => {},
        }
        breakdown.push(breakdown_entry(m));
        k = k + 1;
    }
    proof {
        assert(cs.take(idx.len() as int) =~= cs);
        lemma_cheapest_priced(cs, false);
        lemma_cheapest_priced(cs, true);
    }
    let cheapest_input = match cheap_in {
        Some(j) => {
            let m = &models[idx[j]];
            match &m.pricing {
                Some(p) => Some(CheapestModel {
                    model_id: m.id.clone(),
                    provider: m.provider.clone(),
                    input_price: p.input,
                    currency: p.currency.clone(),
                }),
                None => None,
            }
        },
        None => None,
    };
    let cheapest_output = match cheap_out {
        Some(j) => {
            let m = &models[idx[j]];
            match &m.pricing {
                Some(p) => Some(CheapestOutputModel {
                    model_id: m.id.clone(),
                    provider: m.provider.clone(),
                    output_price: p.output,
                    currency: p.currency.clone(),
                }),
                None => None,
            }
        },
        None => None,
    };
    CompareSummary {
        max_context_window: max_ctx,
        max_output_tokens: max_out,
        cheapest_input,
        cheapest_output,
        pricing_breakdown: breakdown,
    }
}


pub open spec fn ref_unknown(ms: Seq<Model>) -> spec_fn((Seq<char>, Seq<char>)) -> bool {
    |r: (Seq<char>, Seq<char>)| last_where(ms, has_ref(r.0, r.1)) is None
}

/// Compares the models named by a comma-separated list of `provider/id`
/// references: two to five distinct ones, each of which must be known.
pub fn compare(state: &AppState, models: &str) -> (r: Result<CompareResponse, ApiError>)
    ensures
        match compare_refs(models@) {
            None => r matches Err(e) && error_view(e) == (
                3int,
                "models must use provider/id references"@,
                Seq::<char>::empty(),
            ),
            Some(refs) => if refs.len() < 2 {
                r matches Err(e) && error_view(e) == (
                    3int,
                    "compare requires at least two unique models"@,
                    Seq::<char>::empty(),
                )
            } else if refs.len() > 5 {
                r matches Err(e) && error_view(e) == (
                    3int,
                    "compare supports at most five unique models"@,
                    Seq::<char>::empty(),
                )
            } else {
                match crate::state::first_where(refs, ref_unknown(state.models@)) {
                    Some(k) => r matches Err(e) && error_view(e) == (0int, refs[k].0, refs[k].1),
                    None => r matches Ok(resp) && resp.models@.len() == refs.len() && (forall|k: int|
                        0 <= k < refs.len() ==> last_where(state.models@, has_ref(refs[k].0, refs[k].1))
                            == Some(#[trigger] resp.models@[k] as int)) && (forall|k: int|
                        0 <= k < refs.len() ==> #[trigger] resp.models@[k] < state.models.len())
                        && summary_of(resp.summary, chosen(state.models@, resp.models@)),
                }
            },
        },
{
    let refs = match parse_model_refs(models) {
        Ok(v) => v,
        Err(e) => {
            return Err(e);
        },
    };
    if refs.len() < 2 {
        return Err(ApiError::BadRequest { message: "compare requires at least two unique models".to_owned() });
    }
    if refs.len() > 5 {
        return Err(ApiError::BadRequest { message: "compare supports at most five unique models".to_owned() });
    }
    let ghost rv = pair_views(refs@);
    let mut idx: Vec<usize> = Vec::new();
    let mut k: usize = 0;
    while k < refs.len()
        invariant
            k <= refs.len(),
            rv == pair_views(refs@),
            compare_refs(models@) == Some(rv),
            2 <= refs.len() <= 5,
            idx@.len() == k,
            forall|t: int| 0 <= t < k ==> !ref_unknown(state.models@)(#[trigger] rv[t]),
            forall|t: int|
                0 <= t < k ==> last_where(state.models@, has_ref(rv[t].0, rv[t].1)) == Some(
                    #[trigger] idx@[t] as int,
                ),
            forall|t: int| 0 <= t < k ==> #[trigger] idx@[t] < state.models.len(),
        decreases refs.len() - k,
    {
        proof {
            assert(rv[k as int] == (refs@[k as int].0@, refs@[k as int].1@));
        }
        match model_ref_index(&state.models, refs[k].0.as_str(), refs[k].1.as_str()) {
            Some(i) => {
                idx.push(i);
            },
            None => {
                proof {
                    assert(ref_unknown(state.models@)(rv[k as int]));
                    lemma_first_where_at(rv, ref_unknown(state.models@), k as int);
                    assert(compare_refs(models@) == Some(rv));
                }
                let e = ApiError::ModelNotFound { provider: refs[k].0.clone(), id: refs[k].1.clone() };
                proof {
                    assert(error_view(e) == (0int, rv[k as int].0, rv[k as int].1));
                }
                return Err(e);
            },
        }
        k = k + 1;
    }
    proof {
        lemma_first_where_none_refs(rv, ref_unknown(state.models@));
    }
    let summary = summarize(&state.models, &idx);
    Ok(CompareResponse { models: idx, summary })
}

proof fn lemma_first_where_at(s: Seq<(Seq<char>, Seq<char>)>, p: spec_fn((Seq<char>, Seq<char>)) -> bool, k: int)
    requires
        0 <= k < s.len(),
        p(s[k]),
        forall|j: int| 0 <= j < k ==> !p(#[trigger] s[j]),
    ensures
        crate::state::first_where(s, p) == Some(k),
    decreases k,
{
    if k > 0 {
        lemma_first_where_at(s.drop_first(), p, k - 1);
    }
}

proof fn lemma_first_where_none_refs(s: Seq<(Seq<char>, Seq<char>)>, p: spec_fn((Seq<char>, Seq<char>)) -> bool)
    requires
        forall|j: int| 0 <= j < s.len() ==> !p(#[trigger] s[j]),
    ensures
        crate::state::first_where(s, p) is None,
    decreases s.len(),
{
    if s.len() > 0 {
        lemma_first_where_none_refs(s.drop_first(), p);
    }
}

} // verus!
