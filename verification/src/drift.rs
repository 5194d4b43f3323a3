//! Comparing what the scraper found with the catalog: new models, prices
//! that moved, and catalogued models that a thorough scrape no longer shows.
use vstd::prelude::*;
use crate::catalog::Nanos;
use crate::scope::{contains_text, dedup, lemma_push_contains};
use crate::scraped::{
    CatalogEntry, ScrapedModel, entry_input_price, entry_is_official, same_scraped,
};
use crate::text::views;

verus! {

/// How a price that differs from the catalog is to be treated.
#[derive(Clone, Copy, Debug, PartialEq, Eq, Structural)]
pub enum PriceChangeKind {
    /// The catalog entry is not human-verified: the scraped price may replace it.
    Enrich,
    /// The catalog entry is `official`: flag the difference for review.
    DriftAlert,
}

#[derive(Debug)]
pub enum DiffResult {
    New(ScrapedModel),
    PriceChanged {
        model: ScrapedModel,
        old_input: Option<Nanos>,
        old_output: Option<Nanos>,
        kind: PriceChangeKind,
    },
    /// An active catalog entry of a scraped provider that the scrape did not find.
    MissingFromDocs { provider: String, id: String },
}

/// Two prices within this many billionths (0.001 of the unit) are the same.
pub const PRICE_TOLERANCE: i64 = 1_000_000;

pub open spec fn abs_diff(a: int, b: int) -> int {
    if a >= b {
        a - b
    } else {
        b - a
    }
}

/// A scraped price differs from the catalog's: both present and further apart
/// than the tolerance, or only the scraped one present.
pub open spec fn differs_price(s: Option<Nanos>, c: Option<Nanos>) -> bool {
    match (s, c) {
        (Some(a), Some(b)) => abs_diff(a as int, b as int) > PRICE_TOLERANCE,
        (Some(_), None) => true,
        _ => false,
    }
}

/// All input prices that the scrape found for the model.
pub open spec fn scraped_inputs(m: ScrapedModel) -> Seq<Nanos> {
    match m.input_price {
        Some(p) => seq![p] + m.input_price_candidates@,
        None => m.input_price_candidates@,
    }
}

/// The input price drifted: the scrape found some price, and the catalog has
/// none or one that is within the tolerance of none of them.
pub open spec fn input_drifted(m: ScrapedModel, c: Option<Nanos>) -> bool {
    let s = scraped_inputs(m);
    match c {
        None => s.len() > 0,
        Some(c) => s.len() > 0 && !(exists|i: int|
            0 <= i < s.len() && abs_diff(#[trigger] s[i] as int, c as int) <= PRICE_TOLERANCE),
    }
}

/// The first catalog entry with the given id.
pub open spec fn lookup_entry(cat: Seq<CatalogEntry>, id: Seq<char>) -> Option<CatalogEntry>
    decreases cat.len(),
{
    if cat.len() == 0 {
        None
    } else if cat[0].id@ == id {
        Some(cat[0])
    } else {
        lookup_entry(cat.drop_first(), id)
    }
}

/// Whether the scraped model yields a result of its own: it is new, or a price moved.
pub open spec fn emits(m: ScrapedModel, cat: Seq<CatalogEntry>) -> bool {
    match lookup_entry(cat, m.id@) {
        None => true,
        Some(e) => input_drifted(m, entry_input_price(e)) || differs_price(
            m.output_price,
            e.pricing.output,
        ),
    }
}

pub open spec fn kind_for(e: CatalogEntry) -> PriceChangeKind {
    if entry_is_official(e) {
        PriceChangeKind::DriftAlert
    } else {
        PriceChangeKind::Enrich
    }
}

/// The result that a scraped model which `emits` yields.
pub open spec fn result_for(r: DiffResult, m: ScrapedModel, cat: Seq<CatalogEntry>) -> bool {
    match lookup_entry(cat, m.id@) {
        None => r matches DiffResult::New(x) && same_scraped(x, m),
        Some(e) => r matches DiffResult::PriceChanged { model, old_input, old_output, kind }
            && same_scraped(model, m) && old_input == entry_input_price(e) && old_output
            == e.pricing.output && kind == kind_for(e),
    }
}

/// The scraped models that yield a result, in scrape order.
pub open spec fn emitting(s: Seq<ScrapedModel>, cat: Seq<CatalogEntry>) -> Seq<ScrapedModel> {
    s.filter(|m: ScrapedModel| emits(m, cat))
}

/// The providers that were scraped, in order of first appearance.
pub open spec fn scraped_providers(s: Seq<ScrapedModel>) -> Seq<Seq<char>> {
    dedup(s.map_values(|m: ScrapedModel| m.provider@))
}

/// The ids scraped for a provider.
pub open spec fn ids_of(s: Seq<ScrapedModel>, p: Seq<char>) -> Seq<Seq<char>> {
    s.filter(|m: ScrapedModel| m.provider@ == p).map_values(|m: ScrapedModel| m.id@)
}

pub open spec fn is_active_of(e: CatalogEntry, p: Seq<char>) -> bool {
    e.provider@ == p && e.status@ != "deprecated"@
}

/// The provider's catalog entries that are not deprecated.
pub open spec fn active_of(cat: Seq<CatalogEntry>, p: Seq<char>) -> Seq<CatalogEntry> {
    cat.filter(|e: CatalogEntry| is_active_of(e, p))
}

/// The (provider, id) pairs reported missing for one scraped provider: the
/// active entries the scrape did not find, reported only when the scrape
/// found at least 70% of the provider's active entries.
pub open spec fn missing_for(s: Seq<ScrapedModel>, cat: Seq<CatalogEntry>, p: Seq<char>) -> Seq<
    (Seq<char>, Seq<char>),
> {
    let active = active_of(cat, p);
    let ids = ids_of(s, p);
    let matched = active.filter(|e: CatalogEntry| ids.contains(e.id@)).len();
    if active.len() == 0 || 10 * matched < 7 * active.len() {
        Seq::empty()
    } else {
        active.filter(|e: CatalogEntry| !ids.contains(e.id@)).map_values(
            |e: CatalogEntry| (p, e.id@),
        )
    }
}

pub open spec fn missing_over(ps: Seq<Seq<char>>, s: Seq<ScrapedModel>, cat: Seq<CatalogEntry>) -> Seq<
    (Seq<char>, Seq<char>),
>
    decreases ps.len(),
{
    if ps.len() == 0 {
        Seq::empty()
    } else {
        missing_over(ps.drop_last(), s, cat) + missing_for(s, cat, ps.last())
    }
}

pub open spec fn missing_pairs(s: Seq<ScrapedModel>, cat: Seq<CatalogEntry>) -> Seq<
    (Seq<char>, Seq<char>),
> {
    missing_over(scraped_providers(s), s, cat)
}

pub open spec fn is_missing(r: DiffResult, pair: (Seq<char>, Seq<char>)) -> bool {
    r matches DiffResult::MissingFromDocs { provider, id } && provider@ == pair.0 && id@ == pair.1
}

fn differs(s: Option<Nanos>, c: Option<Nanos>) -> (r: bool)
    ensures
        r == differs_price(s, c),
{
    match (s, c) {
        (Some(a), Some(b)) => {
            let d: i128 = (a as i128) - (b as i128);
            d > 1_000_000 || d < -1_000_000
        },
        (Some(_), None) => true,
        _ => false,
    }
}

fn within(a: Nanos, b: Nanos) -> (r: bool)
    ensures
        r == (abs_diff(a as int, b as int) <= PRICE_TOLERANCE),
{
    let d: i128 = (a as i128) - (b as i128);
    -1_000_000 <= d && d <= 1_000_000
}

fn drifted(m: &ScrapedModel, c: Option<Nanos>) -> (r: bool)
    ensures
        r == input_drifted(*m, c),
{
    let ghost s = scraped_inputs(*m);
    let has_any = m.input_price.is_some() || m.input_price_candidates.len() > 0;
    match c {
        None => has_any,
        Some(cv) => {
            if !has_any {
                return false;
            }
            if let Some(p) = m.input_price {
                if within(p, cv) {
                    proof {
                        assert(s[0] == p);
                    }
                    return false;
                }
            }
            let mut i: usize = 0;
            while i < m.input_price_candidates.len()
                invariant
                    i <= m.input_price_candidates.len(),
                    s == scraped_inputs(*m),
                    c == Some(cv),
                    m.input_price matches Some(p) ==> abs_diff(p as int, cv as int)
                        > PRICE_TOLERANCE,
                    forall|j: int|
                        0 <= j < i ==> abs_diff(
                            m.input_price_candidates@[j] as int,
                            cv as int,
                        ) > PRICE_TOLERANCE,
                decreases m.input_price_candidates.len() - i,
            {
                if within(m.input_price_candidates[i], cv) {
                    proof {
                        let off: int = if m.input_price.is_some() {
                            1
                        } else {
                            0
                        };
                        assert(s[off + i] == m.input_price_candidates@[i as int]);
                    }
                    return false;
                }
                i = i + 1;
            }
            proof {
                assert forall|k: int| 0 <= k < s.len() implies abs_diff(
                    #[trigger] s[k] as int,
                    cv as int,
                ) > PRICE_TOLERANCE by {
                    if m.input_price.is_some() {
                        if k > 0 {
                            assert(s[k] == m.input_price_candidates@[k - 1]);
                        }
                    } else {
                        assert(s[k] == m.input_price_candidates@[k]);
                    }
                }
            }
            true
        },
    }
}

proof fn lemma_lookup_step(cat: Seq<CatalogEntry>, id: Seq<char>, i: int)
    requires
        0 <= i < cat.len(),
        cat[i].id@ != id,
    ensures
        lookup_entry(cat.skip(i), id) == lookup_entry(cat.skip(i + 1), id),
{
    assert(cat.skip(i)[0] == cat[i]);
    assert(cat.skip(i).drop_first() =~= cat.skip(i + 1));
}

/// The position of the first catalog entry with the given id.
fn find_entry(cat: &Vec<CatalogEntry>, id: &String) -> (r: Option<usize>)
    ensures
        match lookup_entry(cat@, id@) {
            None => r is None,
            Some(e) => r matches Some(i) && i < cat.len() && cat@[i as int] == e,
        },
{
    let mut i: usize = 0;
    proof {
        assert(cat@.skip(0) =~= cat@);
    }
    while i < cat.len()
        invariant
            i <= cat.len(),
            lookup_entry(cat@, id@) == lookup_entry(cat@.skip(i as int), id@),
        decreases cat.len() - i,
    {
        if cat[i].id == *id {
            proof {
                assert(cat@.skip(i as int)[0] == cat@[i as int]);
            }
            return Some(i);
        }
        proof {
            lemma_lookup_step(cat@, id@, i as int);
        }
        i = i + 1;
    }
    proof {
        assert(cat@.skip(i as int).len() == 0);
    }
    None
}


proof fn lemma_filter_push<A>(s: Seq<A>, x: A, f: spec_fn(A) -> bool)
    ensures
        s.push(x).filter(f) == (if f(x) {
            s.filter(f).push(x)
        } else {
            s.filter(f)
        }),
{
    reveal(Seq::filter);
    assert(s.push(x).drop_last() =~= s);
}

/// The results for new models and moved prices, in scrape order.
fn price_results(scraped: &Vec<ScrapedModel>, catalog: &Vec<CatalogEntry>) -> (r: Vec<DiffResult>)
    ensures
        r.len() == emitting(scraped@, catalog@).len(),
        forall|i: int|
            0 <= i < r.len() ==> result_for(#[trigger] r@[i], emitting(scraped@, catalog@)[i], catalog@),
{
    let mut results: Vec<DiffResult> = Vec::new();
    let ghost f = |m: ScrapedModel| emits(m, catalog@);
    let mut i: usize = 0;
    proof {
        reveal(Seq::filter);
        assert(scraped@.take(0) =~= Seq::<ScrapedModel>::empty());
    }
    while i < scraped.len()
        invariant
            i <= scraped.len(),
            f == (|m: ScrapedModel| emits(m, catalog@)),
            results.len() == scraped@.take(i as int).filter(f).len(),
            forall|j: int|
                0 <= j < results.len() ==> result_for(
                    #[trigger] results@[j],
                    scraped@.take(i as int).filter(f)[j],
                    catalog@,
                ),
        decreases scraped.len() - i,
    {
        let m = &scraped[i];
        proof {
            assert(scraped@.take(i + 1) =~= scraped@.take(i as int).push(scraped@[i as int]));
            lemma_filter_push(scraped@.take(i as int), scraped@[i as int], f);
        }
        match find_entry(catalog, &m.id) {
            None => {
                let ghost before = results@;
                results.push(DiffResult::New(m.copy()));
                proof {
                    assert forall|j: int| 0 <= j < results.len() implies result_for(
                        #[trigger] results@[j],
                        scraped@.take(i + 1).filter(f)[j],
                        catalog@,
                    ) by {
                        if j < before.len() {
                            assert(results@[j] == before[j]);
                        }
                    }
                }
            },
            Some(k) => {
                let entry = &catalog[k];
                let old_input = entry.input_price();
                let input_changed = drifted(m, old_input);
                let output_changed = differs(m.output_price, entry.output_price());
                if input_changed || output_changed {
                    let kind = if entry.is_official() {
                        PriceChangeKind::DriftAlert
                    } else {
                        PriceChangeKind::Enrich
                    };
                    let ghost before = results@;
                    results.push(
                        DiffResult::PriceChanged {
                            model: m.copy(),
                            old_input,
                            old_output: entry.output_price(),
                            kind,
                        },
                    );
                    proof {
                        assert forall|j: int| 0 <= j < results.len() implies result_for(
                            #[trigger] results@[j],
                            scraped@.take(i + 1).filter(f)[j],
                            catalog@,
                        ) by {
                            if j < before.len() {
                                assert(results@[j] == before[j]);
                            }
                        }
                    }
                }
            },
        }
        i = i + 1;
    }
    proof {
        assert(scraped@.take(scraped.len() as int) =~= scraped@);
    }
    results
}

/// The providers that were scraped, each once, in order of first appearance.
fn provider_order(scraped: &Vec<ScrapedModel>) -> (r: Vec<String>)
    ensures
        views(r@) == scraped_providers(scraped@),
{
    let ghost g = |m: ScrapedModel| m.provider@;
    let mut out: Vec<String> = Vec::new();
    let mut i: usize = 0;
    proof {
        assert(scraped@.take(0).map_values(g) =~= Seq::<Seq<char>>::empty());
        assert(views(out@) =~= Seq::<Seq<char>>::empty());
    }
    while i < scraped.len()
        invariant
            i <= scraped.len(),
            g == (|m: ScrapedModel| m.provider@),
            views(out@) == dedup(scraped@.take(i as int).map_values(g)),
        decreases scraped.len() - i,
    {
        let p = &scraped[i].provider;
        proof {
            let pre = scraped@.take(i as int).map_values(g);
            assert(scraped@.take(i + 1).map_values(g) =~= pre.push(p@));
            assert(pre.push(p@).drop_last() =~= pre);
        }
        if !contains_text(&out, p) {
            let ghost before = out@;
            let c = p.clone();
            out.push(c);
            proof {
                assert(views(out@) =~= views(before).push(c@));
            }
        }
        i = i + 1;
    }
    proof {
        assert(scraped@.take(scraped.len() as int) =~= scraped@);
    }
    out
}

/// The ids scraped for the provider, in scrape order.
fn scraped_ids(scraped: &Vec<ScrapedModel>, p: &String) -> (r: Vec<String>)
    ensures
        views(r@) == ids_of(scraped@, p@),
{
    let ghost f = |m: ScrapedModel| m.provider@ == p@;
    let ghost g = |m: ScrapedModel| m.id@;
    let mut out: Vec<String> = Vec::new();
    let mut i: usize = 0;
    proof {
        reveal(Seq::filter);
        assert(scraped@.take(0).filter(f) =~= Seq::<ScrapedModel>::empty());
        assert(views(out@) =~= Seq::<Seq<char>>::empty());
    }
    while i < scraped.len()
        invariant
            i <= scraped.len(),
            f == (|m: ScrapedModel| m.provider@ == p@),
            g == (|m: ScrapedModel| m.id@),
            views(out@) == scraped@.take(i as int).filter(f).map_values(g),
        decreases scraped.len() - i,
    {
        let m = &scraped[i];
        proof {
            assert(scraped@.take(i + 1) =~= scraped@.take(i as int).push(*m));
            lemma_filter_push(scraped@.take(i as int), *m, f);
        }
        if m.provider == *p {
            let ghost before = out@;
            let c = m.id.clone();
            out.push(c);
            proof {
                let fl = scraped@.take(i as int).filter(f);
                assert(fl.push(*m).map_values(g) =~= fl.map_values(g).push(m.id@));
                assert(views(out@) =~= views(before).push(c@));
            }
        }
        i = i + 1;
    }
    proof {
        assert(scraped@.take(scraped.len() as int) =~= scraped@);
    }
    out
}


/// The ids reported missing for one scraped provider (see `missing_for`).
fn missing_ids(scraped: &Vec<ScrapedModel>, catalog: &Vec<CatalogEntry>, p: &String) -> (r: Vec<
    String,
>)
    ensures
        missing_for(scraped@, catalog@, p@) == views(r@).map_values(
            |id: Seq<char>| (p@, id),
        ),
{
    let ids = scraped_ids(scraped, p);
    let ghost idv = ids_of(scraped@, p@);
    let ghost fa = |e: CatalogEntry| is_active_of(e, p@);
    let ghost fin = |e: CatalogEntry| idv.contains(e.id@);
    let ghost fout = |e: CatalogEntry| !idv.contains(e.id@);
    let ghost gid = |e: CatalogEntry| e.id@;
    let deprecated = "deprecated".to_owned();
    let mut active_n: usize = 0;
    let mut matched_n: usize = 0;
    let mut buf: Vec<String> = Vec::new();
    let mut i: usize = 0;
    proof {
        reveal(Seq::filter);
        assert(catalog@.take(0).filter(fa) =~= Seq::<CatalogEntry>::empty());
        assert(views(buf@) =~= Seq::<Seq<char>>::empty());
    }
    while i < catalog.len()
        invariant
            i <= catalog.len(),
            views(ids@) == idv,
            deprecated@ == "deprecated"@,
            fa == (|e: CatalogEntry| is_active_of(e, p@)),
            fin == (|e: CatalogEntry| idv.contains(e.id@)),
            fout == (|e: CatalogEntry| !idv.contains(e.id@)),
            gid == (|e: CatalogEntry| e.id@),
            active_n == catalog@.take(i as int).filter(fa).len(),
            matched_n == catalog@.take(i as int).filter(fa).filter(fin).len(),
            views(buf@) == catalog@.take(i as int).filter(fa).filter(fout).map_values(gid),
            active_n <= i,
            matched_n <= active_n,
        decreases catalog.len() - i,
    {
        let e = &catalog[i];
        let ghost act = catalog@.take(i as int).filter(fa);
        proof {
            assert(catalog@.take(i + 1) =~= catalog@.take(i as int).push(*e));
            lemma_filter_push(catalog@.take(i as int), *e, fa);
            lemma_filter_push(act, *e, fin);
            lemma_filter_push(act, *e, fout);
            act.lemma_filter_len(fin);
        }
        if e.provider == *p && e.status != deprecated {
            active_n = active_n + 1;
            if contains_text(&ids, &e.id) {
                matched_n = matched_n + 1;
            } else {
                let ghost before = buf@;
                let c = e.id.clone();
                buf.push(c);
                proof {
                    let fl = act.filter(fout);
                    assert(fl.push(*e).map_values(gid) =~= fl.map_values(gid).push(e.id@));
                    assert(views(buf@) =~= views(before).push(c@));
                }
            }
        }
        i = i + 1;
    }
    proof {
        assert(catalog@.take(catalog.len() as int) =~= catalog@);
    }
    let enough = (matched_n as u128) * 10 >= (active_n as u128) * 7;
    if active_n == 0 || !enough {
        let r: Vec<String> = Vec::new();
        proof {
            assert(views(r@).map_values(|id: Seq<char>| (p@, id)) =~= Seq::<
                (Seq<char>, Seq<char>),
            >::empty());
        }
        return r;
    }
    proof {
        let act = active_of(catalog@, p@);
        assert(act.filter(fout).map_values(|e: CatalogEntry| (p@, e.id@)) =~= act.filter(
            fout,
        ).map_values(gid).map_values(|id: Seq<char>| (p@, id)));
    }
    buf
}

/// Compares a scrape with the catalog. First, in scrape order, each scraped
/// model absent from the catalog is `New`, and each whose input or output
/// price moved is `PriceChanged` (a `DriftAlert` for an official entry, else
/// `Enrich`). Then, for each scraped provider in order of first appearance,
/// its active entries that the scrape did not find are `MissingFromDocs` —
/// only when the scrape found at least 70% of them.
pub fn diff(scraped: &Vec<ScrapedModel>, catalog: &Vec<CatalogEntry>) -> (r: Vec<DiffResult>)
    ensures
        r.len() == emitting(scraped@, catalog@).len() + missing_pairs(scraped@, catalog@).len(),
        forall|i: int|
            0 <= i < emitting(scraped@, catalog@).len() ==> result_for(
                #[trigger] r@[i],
                emitting(scraped@, catalog@)[i],
                catalog@,
            ),
        forall|j: int|
            0 <= j < missing_pairs(scraped@, catalog@).len() ==> is_missing(
                #[trigger] r@[emitting(scraped@, catalog@).len() + j],
                missing_pairs(scraped@, catalog@)[j],
            ),
{
    let mut results = price_results(scraped, catalog);
    let ghost e_len = results.len();
    let providers = provider_order(scraped);
    let ghost ps = views(providers@);
    let mut k: usize = 0;
    proof {
        assert(ps.take(0) =~= Seq::<Seq<char>>::empty());
    }
    while k < providers.len()
        invariant
            k <= providers.len(),
            ps == views(providers@),
            ps == scraped_providers(scraped@),
            e_len == emitting(scraped@, catalog@).len(),
            results.len() == e_len + missing_over(ps.take(k as int), scraped@, catalog@).len(),
            forall|i: int|
                0 <= i < e_len ==> result_for(
                    #[trigger] results@[i],
                    emitting(scraped@, catalog@)[i],
                    catalog@,
                ),
            forall|j: int|
                0 <= j < missing_over(ps.take(k as int), scraped@, catalog@).len() ==> is_missing(
                    #[trigger] results@[e_len + j],
                    missing_over(ps.take(k as int), scraped@, catalog@)[j],
                ),
        decreases providers.len() - k,
    {
        let p = &providers[k];
        let ids = missing_ids(scraped, catalog, p);
        let ghost pre = missing_over(ps.take(k as int), scraped@, catalog@);
        let ghost add = missing_for(scraped@, catalog@, p@);
        proof {
            assert(ps.take(k + 1).drop_last() =~= ps.take(k as int));
            assert(ps.take(k + 1).last() == p@);
            assert(missing_over(ps.take(k + 1), scraped@, catalog@) == pre + add);
        }
        let mut t: usize = 0;
        while t < ids.len()
            invariant
                t <= ids.len(),
                add == views(ids@).map_values(|id: Seq<char>| (p@, id)),
                results.len() == e_len + pre.len() + t,
                forall|i: int|
                    0 <= i < e_len ==> result_for(
                        #[trigger] results@[i],
                        emitting(scraped@, catalog@)[i],
                        catalog@,
                    ),
                forall|j: int|
                    0 <= j < pre.len() + t ==> is_missing(
                        #[trigger] results@[e_len + j],
                        (pre + add)[j],
                    ),
            decreases ids.len() - t,
        {
            let ghost before = results@;
            let item = DiffResult::MissingFromDocs { provider: p.clone(), id: ids[t].clone() };
            results.push(item);
            proof {
                assert(add[t as int] == (p@, ids@[t as int]@));
                assert forall|i: int| 0 <= i < e_len implies result_for(
                    #[trigger] results@[i],
                    emitting(scraped@, catalog@)[i],
                    catalog@,
                ) by {
                    assert(results@[i] == before[i]);
                }
                assert forall|j: int| 0 <= j < pre.len() + t + 1 implies is_missing(
                    #[trigger] results@[e_len + j],
                    (pre + add)[j],
                ) by {
                    if j < pre.len() + t {
                        assert(results@[e_len + j] == before[e_len + j]);
                    }
                }
            }
            t = t + 1;
        }
        k = k + 1;
    }
    proof {
        assert(ps.take(providers.len() as int) =~= ps);
    }
    results
}


/// A catalog price that matches any one of the scraped tiers is no drift:
/// when the entry's input price lies within the tolerance of one scraped
/// input price and the output prices do not differ, the model yields no
/// result.
pub proof fn lemma_matching_tier_is_not_drift(m: ScrapedModel, cat: Seq<CatalogEntry>, e: CatalogEntry, c: Nanos, i: int)
    requires
        lookup_entry(cat, m.id@) == Some(e),
        entry_input_price(e) == Some(c),
        0 <= i < scraped_inputs(m).len(),
        abs_diff(scraped_inputs(m)[i] as int, c as int) <= PRICE_TOLERANCE,
        !differs_price(m.output_price, e.pricing.output),
    ensures
        !emits(m, cat),
{
    assert(!input_drifted(m, Some(c)));
}

/// Some catalog entry has this provider and id and is not deprecated.
pub open spec fn active_entry_named(cat: Seq<CatalogEntry>, provider: Seq<char>, id: Seq<char>) -> bool {
    exists|j: int|
        0 <= j < cat.len() && (#[trigger] cat[j]).provider@ == provider && cat[j].id@ == id
            && cat[j].status@ != "deprecated"@
}

/// The scrape found a model with this provider and id.
pub open spec fn scraped_named(s: Seq<ScrapedModel>, provider: Seq<char>, id: Seq<char>) -> bool {
    exists|k: int| 0 <= k < s.len() && (#[trigger] s[k]).provider@ == provider && s[k].id@ == id
}

proof fn lemma_missing_for_pairs(s: Seq<ScrapedModel>, cat: Seq<CatalogEntry>, p: Seq<char>, t: int)
    requires
        0 <= t < missing_for(s, cat, p).len(),
    ensures
        missing_for(s, cat, p)[t].0 == p,
        active_entry_named(cat, p, missing_for(s, cat, p)[t].1),
        !scraped_named(s, p, missing_for(s, cat, p)[t].1),
{
    broadcast use vstd::seq_lib::group_filter_ensures;
    let active = active_of(cat, p);
    let ids = ids_of(s, p);
    let unfound = active.filter(|e: CatalogEntry| !ids.contains(e.id@));
    let e = unfound[t];
    assert(missing_for(s, cat, p)[t] == (p, e.id@));
    active.lemma_filter_pred(|e: CatalogEntry| !ids.contains(e.id@), t);
    assert(unfound.contains(e));
    active.lemma_filter_contains_rev(|e: CatalogEntry| !ids.contains(e.id@), e);
    let a = choose|a: int| 0 <= a < active.len() && active[a] == e;
    active_of_pred(cat, p, a);
    cat.lemma_filter_contains_rev(|e: CatalogEntry| is_active_of(e, p), e);
    let j = choose|j: int| 0 <= j < cat.len() && cat[j] == e;
    assert(cat[j].provider@ == p && cat[j].id@ == e.id@ && cat[j].status@ != "deprecated"@);
    if scraped_named(s, p, e.id@) {
        let k = choose|k: int| 0 <= k < s.len() && (#[trigger] s[k]).provider@ == p && s[k].id@ == e.id@;
        lemma_ids_of_contains(s, p, k);
        assert(ids.contains(e.id@));
    }
}

proof fn lemma_ids_of_step(s: Seq<ScrapedModel>, p: Seq<char>)
    requires
        s.len() > 0,
    ensures
        ids_of(s, p) == (if s.last().provider@ == p {
            ids_of(s.drop_last(), p).push(s.last().id@)
        } else {
            ids_of(s.drop_last(), p)
        }),
{
    reveal(Seq::filter);
    if s.last().provider@ == p {
        assert(ids_of(s, p) =~= ids_of(s.drop_last(), p).push(s.last().id@));
    } else {
        assert(ids_of(s, p) =~= ids_of(s.drop_last(), p));
    }
}

proof fn lemma_ids_of_contains(s: Seq<ScrapedModel>, p: Seq<char>, k: int)
    requires
        0 <= k < s.len(),
        s[k].provider@ == p,
    ensures
        ids_of(s, p).contains(s[k].id@),
    decreases s.len(),
{
    let pre = s.drop_last();
    lemma_ids_of_step(s, p);
    if k == s.len() - 1 {
        assert(ids_of(s, p)[ids_of(s, p).len() - 1] == s[k].id@);
    } else {
        lemma_ids_of_contains(pre, p, k);
        assert(pre[k] == s[k]);
        let x = choose|x: int| 0 <= x < ids_of(pre, p).len() && ids_of(pre, p)[x] == s[k].id@;
        assert(ids_of(s, p)[x] == s[k].id@);
    }
}

proof fn active_of_pred(cat: Seq<CatalogEntry>, p: Seq<char>, a: int)
    requires
        0 <= a < active_of(cat, p).len(),
    ensures
        is_active_of(active_of(cat, p)[a], p),
{
    cat.lemma_filter_pred(|e: CatalogEntry| is_active_of(e, p), a);
}

proof fn lemma_missing_over_pairs(ps: Seq<Seq<char>>, s: Seq<ScrapedModel>, cat: Seq<CatalogEntry>, t: int)
    requires
        0 <= t < missing_over(ps, s, cat).len(),
    ensures
        active_entry_named(cat, missing_over(ps, s, cat)[t].0, missing_over(ps, s, cat)[t].1),
        !scraped_named(s, missing_over(ps, s, cat)[t].0, missing_over(ps, s, cat)[t].1),
    decreases ps.len(),
{
    let prev = missing_over(ps.drop_last(), s, cat);
    if t < prev.len() {
        lemma_missing_over_pairs(ps.drop_last(), s, cat, t);
        assert(missing_over(ps, s, cat)[t] == prev[t]);
    } else {
        lemma_missing_for_pairs(s, cat, ps.last(), t - prev.len());
        assert(missing_over(ps, s, cat)[t] == missing_for(s, cat, ps.last())[t - prev.len()]);
    }
}

/// Every model a diff reports missing from the documentation is an entry of
/// the catalog with that provider and id that is not deprecated, and the
/// scrape found no model with that provider and id: deprecated entries are
/// never reported missing.
pub proof fn lemma_missing_are_active_and_unfound(s: Seq<ScrapedModel>, cat: Seq<CatalogEntry>, r: Seq<DiffResult>)
    requires
        r.len() == emitting(s, cat).len() + missing_pairs(s, cat).len(),
        forall|i: int| 0 <= i < emitting(s, cat).len() ==> result_for(#[trigger] r[i], emitting(s, cat)[i], cat),
        forall|j: int|
            0 <= j < missing_pairs(s, cat).len() ==> is_missing(
                #[trigger] r[emitting(s, cat).len() + j],
                missing_pairs(s, cat)[j],
            ),
    ensures
        forall|i: int|
            0 <= i < r.len() ==> (#[trigger] r[i] matches DiffResult::MissingFromDocs { provider, id } ==> (
            active_entry_named(cat, provider@, id@) && !scraped_named(s, provider@, id@))),
{
    let n = emitting(s, cat).len();
    assert forall|i: int|
        0 <= i < r.len() implies (#[trigger] r[i] matches DiffResult::MissingFromDocs { provider, id } ==> (
        active_entry_named(cat, provider@, id@) && !scraped_named(s, provider@, id@))) by {
        if i < n {
            assert(result_for(r[i], emitting(s, cat)[i], cat));
        } else {
            let j = i - n;
            assert(is_missing(r[n + j], missing_pairs(s, cat)[j]));
            lemma_missing_over_pairs(scraped_providers(s), s, cat, j);
        }
    }
}

} // verus!
