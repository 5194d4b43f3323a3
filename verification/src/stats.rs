//! Catalog statistics: how many models fall under each status, provider,
//! endpoint family, modality and confidence, and which priced models are the
//! cheapest and the most expensive.
use vstd::prelude::*;
use crate::catalog::{
    Model, Nanos, Provider, confidence_name, family_name, status_name,
};
use crate::scope::{dedup, lemma_dedup_no_duplicates, lemma_push_contains};
use crate::text::views;

verus! {

/// How many times `k` occurs in `s`.
pub open spec fn occurrences(s: Seq<Seq<char>>, k: Seq<char>) -> nat
    decreases s.len(),
{
    if s.len() == 0 {
        0
    } else {
        occurrences(s.drop_last(), k) + if s.last() == k {
            1nat
        } else {
            0nat
        }
    }
}

/// Each distinct key of `s`, in the order of its first occurrence, with the
/// number of times it occurs.
pub open spec fn tally(s: Seq<Seq<char>>) -> Seq<(Seq<char>, nat)> {
    dedup(s).map_values(|k: Seq<char>| (k, occurrences(s, k)))
}

pub open spec fn counts_view(v: Seq<(String, usize)>) -> Seq<(Seq<char>, nat)> {
    v.map_values(|e: (String, usize)| (e.0@, e.1 as nat))
}

pub open spec fn status_keys(ms: Seq<Model>) -> Seq<Seq<char>> {
    ms.map_values(|m: Model| status_name(m.status))
}

pub open spec fn provider_keys(ms: Seq<Model>) -> Seq<Seq<char>> {
    ms.map_values(|m: Model| m.provider@)
}

pub open spec fn family_keys(ms: Seq<Model>) -> Seq<Seq<char>> {
    ms.map_values(|m: Model| family_name(m.endpoint_family))
}

pub open spec fn confidence_keys(ms: Seq<Model>) -> Seq<Seq<char>> {
    ms.map_values(|m: Model| confidence_name(m.confidence))
}

/// Every input modality of every model, model by model.
pub open spec fn input_keys(ms: Seq<Model>) -> Seq<Seq<char>>
    decreases ms.len(),
{
    if ms.len() == 0 {
        Seq::empty()
    } else {
        input_keys(ms.drop_last()) + views(ms.last().modalities.input@)
    }
}

/// Every output modality of every model, model by model.
pub open spec fn output_keys(ms: Seq<Model>) -> Seq<Seq<char>>
    decreases ms.len(),
{
    if ms.len() == 0 {
        Seq::empty()
    } else {
        output_keys(ms.drop_last()) + views(ms.last().modalities.output@)
    }
}

proof fn lemma_occurrences_absent(s: Seq<Seq<char>>, k: Seq<char>)
    requires
        !s.contains(k),
    ensures
        occurrences(s, k) == 0,
    decreases s.len(),
{
    if s.len() > 0 {
        let p = s.drop_last();
        if p.contains(k) {
            let j = choose|j: int| 0 <= j < p.len() && p[j] == k;
            assert(s[j] == k);
        }
        lemma_occurrences_absent(p, k);
    }
}

proof fn lemma_tally_push(s: Seq<Seq<char>>, k: Seq<char>)
    ensures
        dedup(s.push(k)) == if dedup(s).contains(k) {
            dedup(s)
        } else {
            dedup(s).push(k)
        },
        forall|x: Seq<char>|
            occurrences(s.push(k), x) == occurrences(s, x) + if x == k {
                1nat
            } else {
                0nat
            },
{
    assert(s.push(k).drop_last() =~= s);
}

/// Counts one more occurrence of `key`.
fn tally_add(counts: &mut Vec<(String, usize)>, key: String, Ghost(s): Ghost<Seq<Seq<char>>>)
    requires
        counts_view(old(counts)@) == tally(s),
        s.len() < usize::MAX,
    ensures
        counts_view(final(counts)@) == tally(s.push(key@)),
{
    proof {
        lemma_tally_push(s, key@);
        lemma_dedup_no_duplicates(s);
    }
    let ghost d = dedup(s);
    let mut i: usize = 0;
    while i < counts.len()
        invariant
            i <= counts.len(),
            counts_view(counts@) == tally(s),
            d == dedup(s),
            d.no_duplicates(),
            s.len() < usize::MAX,
            forall|j: int| 0 <= j < i ==> counts@[j].0@ != key@,
        decreases counts.len() - i,
    {
        if counts[i].0 == key {
            proof {
                assert(counts@[i as int].0@ == key@);
                assert(counts_view(counts@).len() == counts@.len());
                assert(tally(s).len() == d.len());
                assert(i < d.len());
                assert(counts_view(counts@)[i as int] == (counts@[i as int].0@, counts@[i as int].1 as nat));
                assert(tally(s)[i as int] == (d[i as int], occurrences(s, d[i as int])));
                assert(d[i as int] == key@);
                assert(counts@[i as int].1 as nat == occurrences(s, key@));
                lemma_occurrences_bound(s, key@);
            }
            let n = counts[i].1 + 1;
            let name = counts[i].0.clone();
            let ghost before = counts@;
            counts.set(i, (name, n));
            proof {
                assert(d.contains(key@));
                lemma_tally_push(s, key@);
                let s2 = s.push(key@);
                assert(dedup(s2) == d);
                assert(tally(s2).len() == d.len());
                assert forall|j: int| 0 <= j < d.len() implies counts_view(counts@)[j]
                    == tally(s2)[j] by {
                    assert(counts_view(before)[j] == tally(s)[j]);
                    assert(tally(s)[j] == (d[j], occurrences(s, d[j])));
                    assert(tally(s2)[j] == (d[j], occurrences(s2, d[j])));
                    if j != i {
                        assert(d[j] != d[i as int]);
                        assert(counts@[j] == before[j]);
                    } else {
                        assert(counts@[j].0@ == before[j].0@);
                    }
                }
                assert(counts_view(counts@) =~= tally(s.push(key@)));
            }
            return;
        }
        i = i + 1;
    }
    proof {
        assert forall|j: int| 0 <= j < d.len() implies d[j] != key@ by {
            assert(counts_view(counts@)[j] == tally(s)[j]);
        }
        lemma_dedup_no_duplicates(s);
        assert(!s.contains(key@));
        lemma_occurrences_absent(s, key@);
        assert(!d.contains(key@));
    }
    let ghost before = counts@;
    counts.push((key, 1));
    proof {
        assert forall|j: int| 0 <= j < d.len() implies counts_view(counts@)[j]
            == tally(s.push(key@))[j] by {
            assert(counts_view(before)[j] == tally(s)[j]);
            assert(d[j] != key@);
        }
        assert(counts_view(counts@) =~= tally(s.push(key@)));
    }
}

proof fn lemma_occurrences_bound(s: Seq<Seq<char>>, k: Seq<char>)
    ensures
        occurrences(s, k) <= s.len(),
    decreases s.len(),
{
    if s.len() > 0 {
        lemma_occurrences_bound(s.drop_last(), k);
    }
}


/// A priced model and one of its prices.
#[derive(Clone, Debug)]
pub struct ModelPriceStat {
    pub model_id: String,
    pub provider: String,
    pub price: Nanos,
}

pub open spec fn stat_view(s: ModelPriceStat) -> (Seq<char>, Seq<char>, int) {
    (s.model_id@, s.provider@, s.price as int)
}

pub open spec fn opt_stat_view(s: Option<ModelPriceStat>) -> Option<(Seq<char>, Seq<char>, int)> {
    match s {
        Some(x) => Some(stat_view(x)),
        None => None,
    }
}

/// The input price of a model (`output == false`) or its output price.
pub open spec fn chosen_price(m: Model, output: bool) -> int {
    if output {
        m.pricing->0.output as int
    } else {
        m.pricing->0.input as int
    }
}

/// The first priced model with the lowest price (`lowest`) or with the
/// highest price, as (id, provider, price).
pub open spec fn extreme(ms: Seq<Model>, output: bool, lowest: bool) -> Option<
    (Seq<char>, Seq<char>, int),
>
    decreases ms.len(),
{
    if ms.len() == 0 {
        None
    } else {
        let prev = extreme(ms.drop_last(), output, lowest);
        let m = ms.last();
        if m.pricing is None {
            prev
        } else {
            let v = chosen_price(m, output);
            match prev {
                None => Some((m.id@, m.provider@, v)),
                Some(q) => if (lowest && v < q.2) || (!lowest && v > q.2) {
                    Some((m.id@, m.provider@, v))
                } else {
                    prev
                },
            }
        }
    }
}

/// How many models have no pricing.
pub open spec fn unpriced_count(ms: Seq<Model>) -> nat
    decreases ms.len(),
{
    if ms.len() == 0 {
        0
    } else {
        unpriced_count(ms.drop_last()) + if ms.last().pricing is None {
            1nat
        } else {
            0nat
        }
    }
}

/// How many models are priced at zero for both input and output.
pub open spec fn free_count(ms: Seq<Model>) -> nat
    decreases ms.len(),
{
    if ms.len() == 0 {
        0
    } else {
        free_count(ms.drop_last()) + if ms.last().pricing matches Some(p) && p.input == 0
            && p.output == 0 {
            1nat
        } else {
            0nat
        }
    }
}

/// Summary counts over the whole catalog.
#[derive(Clone, Debug)]
pub struct CatalogStats {
    pub total_models: usize,
    pub total_providers: usize,
    pub models_by_status: Vec<(String, usize)>,
    pub models_by_provider: Vec<(String, usize)>,
    pub models_by_endpoint_family: Vec<(String, usize)>,
    pub models_by_input_modality: Vec<(String, usize)>,
    pub models_by_output_modality: Vec<(String, usize)>,
    pub models_by_confidence: Vec<(String, usize)>,
    pub free_models: usize,
    pub models_without_pricing: usize,
    pub cheapest_input: Option<ModelPriceStat>,
    pub most_expensive_input: Option<ModelPriceStat>,
    pub cheapest_output: Option<ModelPriceStat>,
    pub most_expensive_output: Option<ModelPriceStat>,
    pub last_updated: String,
}

fn keep_extreme(
    cur: Option<ModelPriceStat>,
    m: &Model,
    output: bool,
    lowest: bool,
    Ghost(ms): Ghost<Seq<Model>>,
) -> (r: Option<ModelPriceStat>)
    requires
        m.pricing is Some,
        opt_stat_view(cur) == extreme(ms, output, lowest),
    ensures
        opt_stat_view(r) == extreme(ms.push(*m), output, lowest),
{
    proof {
        assert(ms.push(*m).drop_last() =~= ms);
    }
    let v = match &m.pricing {
        Some(p) => if output {
            p.output
        } else {
            p.input
        },
        None => 0,
    };
    let take = match &cur {
        None => true,
        Some(q) => (lowest && v < q.price) || (!lowest && v > q.price),
    };
    if take {
        Some(ModelPriceStat { model_id: m.id.clone(), provider: m.provider.clone(), price: v })
    } else {
        cur
    }
}


/// Counts each string of `list` once more.
fn tally_all(
    counts: &mut Vec<(String, usize)>,
    list: &Vec<String>,
    Ghost(s): Ghost<Seq<Seq<char>>>,
)
    requires
        counts_view(old(counts)@) == tally(s),
        s.len() + list.len() < usize::MAX,
    ensures
        counts_view(final(counts)@) == tally(s + views(list@)),
{
    let mut j: usize = 0;
    while j < list.len()
        invariant
            j <= list.len(),
            s.len() + list.len() < usize::MAX,
            counts_view(counts@) == tally(s + views(list@.take(j as int))),
        decreases list.len() - j,
    {
        let ghost cur = s + views(list@.take(j as int));
        proof {
            assert(cur.push(list@[j as int]@) =~= s + views(list@.take(j + 1)));
        }
        tally_add(counts, list[j].clone(), Ghost(cur));
        j = j + 1;
    }
    proof {
        assert(list@.take(list.len() as int) =~= list@);
    }
}

proof fn lemma_input_keys_step(ms: Seq<Model>, k: int)
    requires
        0 <= k < ms.len(),
    ensures
        input_keys(ms.take(k + 1)) == input_keys(ms.take(k)) + views(ms[k].modalities.input@),
        output_keys(ms.take(k + 1)) == output_keys(ms.take(k)) + views(ms[k].modalities.output@),
        input_keys(ms.take(k)).len() + views(ms[k].modalities.input@).len() <= input_keys(ms).len(),
        output_keys(ms.take(k)).len() + views(ms[k].modalities.output@).len() <= output_keys(ms).len(),
{
    assert(ms.take(k + 1).drop_last() =~= ms.take(k));
    lemma_keys_mono(ms, k + 1);
}

proof fn lemma_keys_mono(ms: Seq<Model>, k: int)
    requires
        0 <= k <= ms.len(),
    ensures
        input_keys(ms.take(k)).len() <= input_keys(ms).len(),
        output_keys(ms.take(k)).len() <= output_keys(ms).len(),
    decreases ms.len() - k,
{
    if k < ms.len() {
        lemma_keys_mono(ms, k + 1);
        assert(ms.take(k + 1).drop_last() =~= ms.take(k));
    } else {
        assert(ms.take(k) =~= ms);
    }
}

/// The statistics of a catalog; `last_updated` is the time at which it was
/// loaded, already formatted.
pub fn compute_stats(models: &Vec<Model>, providers: &Vec<Provider>, last_updated: String) -> (r:
    CatalogStats)
    requires
        input_keys(models@).len() < usize::MAX,
        output_keys(models@).len() < usize::MAX,
    ensures
        r.total_models == models.len(),
        r.total_providers == providers.len(),
        counts_view(r.models_by_status@) == tally(status_keys(models@)),
        counts_view(r.models_by_provider@) == tally(provider_keys(models@)),
        counts_view(r.models_by_endpoint_family@) == tally(family_keys(models@)),
        counts_view(r.models_by_input_modality@) == tally(input_keys(models@)),
        counts_view(r.models_by_output_modality@) == tally(output_keys(models@)),
        counts_view(r.models_by_confidence@) == tally(confidence_keys(models@)),
        r.free_models == free_count(models@),
        r.models_without_pricing == unpriced_count(models@),
        opt_stat_view(r.cheapest_input) == extreme(models@, false, true),
        opt_stat_view(r.most_expensive_input) == extreme(models@, false, false),
        opt_stat_view(r.cheapest_output) == extreme(models@, true, true),
        opt_stat_view(r.most_expensive_output) == extreme(models@, true, false),
        r.last_updated@ == last_updated@,
{
    let ghost ms = models@;
    let mut by_status: Vec<(String, usize)> = Vec::new();
    let mut by_provider: Vec<(String, usize)> = Vec::new();
    let mut by_family: Vec<(String, usize)> = Vec::new();
    let mut by_input: Vec<(String, usize)> = Vec::new();
    let mut by_output: Vec<(String, usize)> = Vec::new();
    let mut by_confidence: Vec<(String, usize)> = Vec::new();
    let mut free_models: usize = 0;
    let mut without_pricing: usize = 0;
    let mut cheapest_input: Option<ModelPriceStat> = None;
    let mut priciest_input: Option<ModelPriceStat> = None;
    let mut cheapest_output: Option<ModelPriceStat> = None;
    let mut priciest_output: Option<ModelPriceStat> = None;
    proof {
        assert(ms.take(0) =~= Seq::<Model>::empty());
        assert(status_keys(ms.take(0)) =~= Seq::<Seq<char>>::empty());
        assert(provider_keys(ms.take(0)) =~= Seq::<Seq<char>>::empty());
        assert(family_keys(ms.take(0)) =~= Seq::<Seq<char>>::empty());
        assert(confidence_keys(ms.take(0)) =~= Seq::<Seq<char>>::empty());
        assert(counts_view(by_status@) =~= tally(Seq::<Seq<char>>::empty()));
    }
    let mut k: usize = 0;
    while k < models.len()
        invariant
            k <= models.len(),
            ms == models@,
            input_keys(ms).len() < usize::MAX,
            output_keys(ms).len() < usize::MAX,
            counts_view(by_status@) == tally(status_keys(ms.take(k as int))),
            counts_view(by_provider@) == tally(provider_keys(ms.take(k as int))),
            counts_view(by_family@) == tally(family_keys(ms.take(k as int))),
            counts_view(by_input@) == tally(input_keys(ms.take(k as int))),
            counts_view(by_output@) == tally(output_keys(ms.take(k as int))),
            counts_view(by_confidence@) == tally(confidence_keys(ms.take(k as int))),
            free_models == free_count(ms.take(k as int)),
            without_pricing == unpriced_count(ms.take(k as int)),
            free_models <= k,
            without_pricing <= k,
            opt_stat_view(cheapest_input) == extreme(ms.take(k as int), false, true),
            opt_stat_view(priciest_input) == extreme(ms.take(k as int), false, false),
            opt_stat_view(cheapest_output) == extreme(ms.take(k as int), true, true),
            opt_stat_view(priciest_output) == extreme(ms.take(k as int), true, false),
        decreases models.len() - k,
    {
        let m = &models[k];
        let ghost pre = ms.take(k as int);
        proof {
            assert(ms.take(k + 1) =~= pre.push(*m));
            assert(status_keys(pre.push(*m)) =~= status_keys(pre).push(status_name(m.status)));
            assert(provider_keys(pre.push(*m)) =~= provider_keys(pre).push(m.provider@));
            assert(family_keys(pre.push(*m)) =~= family_keys(pre).push(family_name(m.endpoint_family)));
            assert(confidence_keys(pre.push(*m)) =~= confidence_keys(pre).push(
                confidence_name(m.confidence),
            ));
            lemma_input_keys_step(ms, k as int);
            assert(pre.push(*m).drop_last() =~= pre);
        }
        tally_add(&mut by_status, m.status.as_str().to_owned(), Ghost(status_keys(pre)));
        tally_add(&mut by_provider, m.provider.clone(), Ghost(provider_keys(pre)));
        tally_add(&mut by_family, m.endpoint_family.as_str().to_owned(), Ghost(family_keys(pre)));
        tally_all(&mut by_input, &m.modalities.input, Ghost(input_keys(pre)));
        tally_all(&mut by_output, &m.modalities.output, Ghost(output_keys(pre)));
        tally_add(&mut by_confidence, m.confidence.as_str().to_owned(), Ghost(confidence_keys(pre)));
        match &m.pricing {
            None => {
                without_pricing = without_pricing + 1;
            },
            Some(p) => {
                if p.input == 0 && p.output == 0 {
                    free_models = free_models + 1;
                }
                cheapest_input = keep_extreme(cheapest_input, m, false, true, Ghost(pre));
                priciest_input = keep_extreme(priciest_input, m, false, false, Ghost(pre));
                cheapest_output = keep_extreme(cheapest_output, m, true, true, Ghost(pre));
                priciest_output = keep_extreme(priciest_output, m, true, false, Ghost(pre));
            },
        }
        k = k + 1;
    }
    proof {
        assert(ms.take(models.len() as int) =~= ms);
    }
    CatalogStats {
        total_models: models.len(),
        total_providers: providers.len(),
        models_by_status: by_status,
        models_by_provider: by_provider,
        models_by_endpoint_family: by_family,
        models_by_input_modality: by_input,
        models_by_output_modality: by_output,
        models_by_confidence: by_confidence,
        free_models,
        models_without_pricing: without_pricing,
        cheapest_input,
        most_expensive_input: priciest_input,
        cheapest_output,
        most_expensive_output: priciest_output,
        last_updated,
    }
}


/// The sum of the counts of a tally.
pub open spec fn count_sum(t: Seq<(Seq<char>, nat)>) -> nat
    decreases t.len(),
{
    if t.len() == 0 {
        0
    } else {
        count_sum(t.drop_last()) + t.last().1
    }
}

/// The occurrences in `s` of the keys of `d`, added up.
spec fn occ_sum(d: Seq<Seq<char>>, s: Seq<Seq<char>>) -> nat
    decreases d.len(),
{
    if d.len() == 0 {
        0
    } else {
        occ_sum(d.drop_last(), s) + occurrences(s, d.last())
    }
}

proof fn lemma_count_sum_is_occ_sum(d: Seq<Seq<char>>, s: Seq<Seq<char>>)
    ensures
        count_sum(d.map_values(|k: Seq<char>| (k, occurrences(s, k)))) == occ_sum(d, s),
    decreases d.len(),
{
    if d.len() > 0 {
        lemma_count_sum_is_occ_sum(d.drop_last(), s);
        assert(d.map_values(|k: Seq<char>| (k, occurrences(s, k))).drop_last() =~= d.drop_last().map_values(
            |k: Seq<char>| (k, occurrences(s, k)),
        ));
    }
}

proof fn lemma_occ_sum_push(d: Seq<Seq<char>>, s: Seq<Seq<char>>, k: Seq<char>)
    requires
        d.no_duplicates(),
    ensures
        occ_sum(d, s.push(k)) == occ_sum(d, s) + if d.contains(k) {
            1nat
        } else {
            0nat
        },
    decreases d.len(),
{
    assert(s.push(k).drop_last() =~= s);
    if d.len() > 0 {
        let p = d.drop_last();
        assert forall|a: int, b: int| 0 <= a < b < p.len() implies p[a] != p[b] by {
            assert(p[a] == d[a] && p[b] == d[b]);
        }
        lemma_occ_sum_push(p, s, k);
        lemma_push_contains(p, d.last(), k);
        assert(p.push(d.last()) =~= d);
        if d.last() == k && p.contains(k) {
            let j = choose|j: int| 0 <= j < p.len() && p[j] == k;
            assert(d[j] == d[d.len() - 1]);
        }
    }
}

/// Every key is counted once: the counts of a tally add up to the number of
/// keys tallied (so the statistics count each model once per grouping).
pub proof fn lemma_tally_total(s: Seq<Seq<char>>)
    ensures
        count_sum(tally(s)) == s.len(),
    decreases s.len(),
{
    lemma_count_sum_is_occ_sum(dedup(s), s);
    if s.len() > 0 {
        let p = s.drop_last();
        let k = s.last();
        lemma_tally_total(p);
        lemma_count_sum_is_occ_sum(dedup(p), p);
        assert(p.push(k) =~= s);
        lemma_tally_push(p, k);
        lemma_dedup_no_duplicates(p);
        lemma_dedup_no_duplicates(s);
        lemma_occ_sum_push(dedup(p), p, k);
        if !dedup(p).contains(k) {
            assert(dedup(s) == dedup(p).push(k));
            assert(dedup(s).drop_last() =~= dedup(p));
            lemma_occurrences_absent(p, k);
        }
    }
}

/// Free and unpriced models are counted apart: together they are at most
/// the number of models.
pub proof fn lemma_free_and_unpriced_within_total(ms: Seq<Model>)
    ensures
        free_count(ms) + unpriced_count(ms) <= ms.len(),
    decreases ms.len(),
{
    if ms.len() > 0 {
        lemma_free_and_unpriced_within_total(ms.drop_last());
    }
}

/// Whether the model at `i` has a price.
pub open spec fn priced_at(ms: Seq<Model>, i: int) -> bool {
    ms[i].pricing is Some
}

/// The cheapest (`lowest`) or most expensive priced model is absent exactly
/// when no model is priced; otherwise it is the first priced model whose
/// price is at most (at least) every priced model's price.
pub proof fn lemma_extreme_is_first_bound(ms: Seq<Model>, output: bool, lowest: bool)
    ensures
        extreme(ms, output, lowest) is None <==> forall|i: int| 0 <= i < ms.len() ==> !#[trigger] priced_at(ms, i),
        extreme(ms, output, lowest) matches Some(c) ==> exists|i: int|
            0 <= i < ms.len() && #[trigger] priced_at(ms, i) && c == (ms[i].id@, ms[i].provider@, chosen_price(ms[i], output))
                && (forall|j: int| 0 <= j < ms.len() && #[trigger] priced_at(ms, j) ==> if lowest {
                    c.2 <= chosen_price(ms[j], output)
                } else {
                    c.2 >= chosen_price(ms[j], output)
                }) && (forall|j: int| 0 <= j < i && #[trigger] priced_at(ms, j) ==> chosen_price(ms[j], output) != c.2),
    decreases ms.len(),
{
    if ms.len() > 0 {
        let p = ms.drop_last();
        lemma_extreme_is_first_bound(p, output, lowest);
        let n = ms.len() - 1;
        assert forall|i: int| 0 <= i < p.len() implies priced_at(p, i) == priced_at(ms, i) && p[i] == ms[i] by {}
        match extreme(p, output, lowest) {
            None => {
                if ms.last().pricing is None {
                    assert forall|i: int| 0 <= i < ms.len() implies !#[trigger] priced_at(ms, i) by {
                        if i < p.len() {
                            assert(!priced_at(p, i));
                        }
                    }
                } else {
                    assert(priced_at(ms, n));
                    assert forall|j: int| 0 <= j < ms.len() && #[trigger] priced_at(ms, j) implies j == n by {
                        if j < n {
                            assert(priced_at(p, j));
                        }
                    }
                }
            },
            Some(q) => {
                let i = choose|i: int|
                    0 <= i < p.len() && #[trigger] priced_at(p, i) && q == (p[i].id@, p[i].provider@, chosen_price(p[i], output))
                        && (forall|j: int| 0 <= j < p.len() && #[trigger] priced_at(p, j) ==> if lowest {
                            q.2 <= chosen_price(p[j], output)
                        } else {
                            q.2 >= chosen_price(p[j], output)
                        }) && (forall|j: int| 0 <= j < i && #[trigger] priced_at(p, j) ==> chosen_price(p[j], output) != q.2);
                assert(priced_at(ms, i));
                let v = chosen_price(ms.last(), output);
                if ms.last().pricing is Some && ((lowest && v < q.2) || (!lowest && v > q.2)) {
                    assert(priced_at(ms, n));
                    assert forall|j: int| 0 <= j < ms.len() && #[trigger] priced_at(ms, j) implies (if lowest {
                        v <= chosen_price(ms[j], output)
                    } else {
                        v >= chosen_price(ms[j], output)
                    }) by {
                        if j < n {
                            assert(priced_at(p, j));
                        }
                    }
                    assert forall|j: int| 0 <= j < n && #[trigger] priced_at(ms, j) implies chosen_price(ms[j], output) != v by {
                        assert(priced_at(p, j));
                    }
                } else {
                    assert forall|j: int| 0 <= j < ms.len() && #[trigger] priced_at(ms, j) implies (if lowest {
                        q.2 <= chosen_price(ms[j], output)
                    } else {
                        q.2 >= chosen_price(ms[j], output)
                    }) by {
                        if j < n {
                            assert(priced_at(p, j));
                        }
                    }
                    assert forall|j: int| 0 <= j < i && #[trigger] priced_at(ms, j) implies chosen_price(ms[j], output) != q.2 by {
                        assert(priced_at(p, j));
                    }
                }
            },
        }
    }
}

/// A model is free when it is priced at zero for input and for output alike.
pub open spec fn is_free(m: Model) -> bool {
    m.pricing matches Some(p) && p.input == 0 && p.output == 0
}

proof fn lemma_free_count_filter(ms: Seq<Model>)
    ensures
        free_count(ms) == ms.filter(|m: Model| is_free(m)).len(),
        unpriced_count(ms) == ms.filter(|m: Model| m.pricing is None).len(),
    decreases ms.len(),
{
    reveal(Seq::filter);
    if ms.len() > 0 {
        lemma_free_count_filter(ms.drop_last());
    }
}

/// The statistics count as free exactly the models priced at zero for both
/// input and output, and as unpriced exactly the models without pricing: a
/// model with a paid input or output price is never free.
pub proof fn lemma_free_models_pay_nothing(models: Seq<Model>, r: CatalogStats)
    requires
        r.free_models == free_count(models),
        r.models_without_pricing == unpriced_count(models),
    ensures
        r.free_models == models.filter(
            |m: Model| m.pricing matches Some(p) && p.input == 0 && p.output == 0,
        ).len(),
        r.models_without_pricing == models.filter(|m: Model| m.pricing is None).len(),
{
    lemma_free_count_filter(models);
    assert((|m: Model| is_free(m)) =~= (|m: Model| m.pricing matches Some(p) && p.input == 0 && p.output == 0));
}

} // verus!
