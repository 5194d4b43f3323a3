//! The catalog listings and lookups that the API serves: models, search,
//! suggestions, providers and aliases. Listings return positions into the
//! catalog's vectors, which the server renders.
use vstd::prelude::*;
use crate::catalog::Model;
use crate::filter::{
    ModelFilter, descending, is_descending, matches_filter, matching, model_matches_filter,
    model_sort_key, non_empty, non_empty_spec, page_size, page_offset, page_window,
    requested_limit, sort_key, sort_keys,
};
use crate::fuzzy::{
    DEFAULT_THRESHOLD, MatchType, SuggV, SuggestionMatch, best_model_suggestion,
    model_suggestion, sugg_view,
};
use crate::sorting::{KeyPart, PartV, is_sorted_order, key_view, keys_view, sort_order};
use crate::state::{AppState, first_where, has_id, has_ref, last_where, model_index, first_model_index};
use crate::text::{split_seq, trim_seq, views};
use crate::rounding::{millis_of, score_millis};

verus! {

/// One page of a model listing: positions into the catalog's models.
#[derive(Debug)]
pub struct ModelPage {
    pub data: Vec<usize>,
    pub limit: usize,
    pub offset: usize,
    pub total: usize,
}

/// The number of models a listing returns when no limit is given.
pub const DEFAULT_MODEL_LIMIT: usize = 20;

/// The positions of the models that pass the filter, in catalog order.
pub fn matching_positions(models: &Vec<Model>, f: &ModelFilter) -> (r: Vec<usize>)
    ensures
        r@.len() == matching(models@, *f).len(),
        forall|k: int| 0 <= k < r@.len() ==> r@[k] as int == #[trigger] matching(models@, *f)[k],
        forall|k: int| 0 <= k < r@.len() ==> r@[k] < models.len(),
{
    let ghost ms = models@;
    let mut out: Vec<usize> = Vec::new();
    let mut i: usize = 0;
    proof {
        assert(ms.take(0) =~= Seq::<Model>::empty());
    }
    while i < models.len()
        invariant
            i <= models.len(),
            ms == models@,
            out@.len() == matching(ms.take(i as int), *f).len(),
            forall|k: int| 0 <= k < out@.len() ==> out@[k] as int == #[trigger] matching(ms.take(i as int), *f)[k],
            forall|k: int| 0 <= k < out@.len() ==> out@[k] < i,
        decreases models.len() - i,
    {
        proof {
            assert(ms.take(i + 1).drop_last() =~= ms.take(i as int));
            assert(ms.take(i + 1).last() == ms[i as int]);
        }
        if model_matches_filter(&models[i], f) {
            out.push(i);
        }
        i = i + 1;
    }
    proof {
        assert(ms.take(ms.len() as int) =~= ms);
    }
    out
}

/// The sort keys of the models at the given positions.
pub open spec fn keys_at(ms: Seq<Model>, idx: Seq<usize>, sort: Option<Seq<char>>) -> Seq<Seq<PartV>> {
    idx.map_values(|i: usize| model_sort_key(ms[i as int], sort))
}

/// The page `[off, off + lim)` of the positions `idx` sorted by the model
/// sort `sort`.
fn sorted_page(
    models: &Vec<Model>,
    idx: &Vec<usize>,
    sort: &Option<String>,
    desc: bool,
    off: usize,
    lim: usize,
) -> (r: Vec<usize>)
    requires
        off + lim <= idx.len(),
        forall|k: int| 0 <= k < idx@.len() ==> idx@[k] < models.len(),
    ensures
        exists|p: Seq<usize>|
            #[trigger] is_sorted_order(
                p,
                keys_at(models@, idx@, crate::filter::opt_view(*sort)),
                desc,
            ) && r@ == Seq::new(lim as nat, |k: int| idx@[p[off + k] as int]),
{
    let ghost ks = keys_at(models@, idx@, crate::filter::opt_view(*sort));
    let mut keys: Vec<Vec<KeyPart>> = Vec::new();
    let mut j: usize = 0;
    while j < idx.len()
        invariant
            j <= idx.len(),
            forall|k: int| 0 <= k < idx@.len() ==> idx@[k] < models.len(),
            ks == keys_at(models@, idx@, crate::filter::opt_view(*sort)),
            keys_view(keys@) == ks.take(j as int),
        decreases idx.len() - j,
    {
        let key = sort_key(&models[idx[j]], sort);
        let ghost before = keys@;
        keys.push(key);
        proof {
            assert(keys_view(keys@) =~= keys_view(before).push(key_view(key@)));
            assert(ks.take(j + 1) =~= ks.take(j as int).push(ks[j as int]));
        }
        j = j + 1;
    }
    proof {
        assert(ks.take(idx.len() as int) =~= ks);
    }
    let order = sort_order(&keys, desc);
    let mut out: Vec<usize> = Vec::new();
    let mut k: usize = 0;
    while k < lim
        invariant
            k <= lim,
            off + lim <= idx.len(),
            is_sorted_order(order@, ks, desc),
            ks.len() == idx.len(),
            out@ == Seq::new(k as nat, |t: int| idx@[order@[off + t] as int]),
        decreases lim - k,
    {
        let ghost before = out@;
        proof {
            assert(order@[off + k] < ks.len());
        }
        out.push(idx[order[off + k]]);
        proof {
            assert(out@ =~= Seq::new((k + 1) as nat, |t: int| idx@[order@[off + t] as int]));
        }
        k = k + 1;
    }
    out
}

/// One page of the models that pass the filter, sorted as the filter asks.
pub fn list_models(state: &AppState, filter: &ModelFilter) -> (r: ModelPage)
    ensures
        ({
            let m = matching(state.models@, *filter);
            &&& r.total == m.len()
            &&& r.offset == page_offset(m.len() as int, filter.offset)
            &&& r.limit == requested_limit(filter.limit, DEFAULT_MODEL_LIMIT as int)
            &&& r.data@.len() == page_size(m.len() as int, filter.offset, filter.limit, DEFAULT_MODEL_LIMIT as int)
            &&& exists|p: Seq<usize>|
                #[trigger] is_sorted_order(p, sort_keys(state.models@, m, non_empty_spec(filter.sort)), descending(*filter))
                    && forall|k: int|
                    0 <= k < r.data@.len() ==> #[trigger] r.data@[k] as int == m[p[r.offset + k] as int]
        }),
{
    let idx = matching_positions(&state.models, filter);
    let ghost m = matching(state.models@, *filter);
    let total = idx.len();
    let (off, lim, req) = page_window(total, filter.offset, filter.limit, DEFAULT_MODEL_LIMIT);
    let sort = non_empty(&filter.sort);
    let desc = is_descending(filter);
    let data = sorted_page(&state.models, &idx, &sort, desc, off, lim);
    proof {
        let ks = keys_at(state.models@, idx@, crate::filter::opt_view(sort));
        assert(ks =~= sort_keys(state.models@, m, non_empty_spec(filter.sort)));
        let p = choose|p: Seq<usize>| is_sorted_order(p, ks, desc) && data@ == Seq::new(lim as nat, |k: int| idx@[p[off + k] as int]);
        assert forall|k: int| 0 <= k < lim implies #[trigger] data@[k] as int == m[p[off + k] as int] by {
            assert(p[off + k] < ks.len());
        }
    }
    ModelPage { data, limit: req, offset: off, total }
}

/// The position of the first model with this provider and id.
pub fn get_model(state: &AppState, provider: &str, id: &str) -> (r: Option<usize>)
    ensures
        match r {
            Some(i) => i < state.models.len() && first_where(state.models@, has_ref(provider@, id@)) == Some(i as int),
            None => first_where(state.models@, has_ref(provider@, id@)) is None,
        },
{
    first_model_index(&state.models, provider, id)
}


/// One search result: a model's position and, when the search had a query,
/// its best match.
#[derive(Debug)]
pub struct SearchEntry {
    pub index: usize,
    pub suggestion: Option<SuggestionMatch>,
}

#[derive(Debug)]
pub struct SearchPage {
    pub entries: Vec<SearchEntry>,
    pub limit: usize,
    pub offset: usize,
    pub total: usize,
}

pub open spec fn entry_view(e: SearchEntry) -> (int, Option<SuggV>) {
    (
        e.index as int,
        match e.suggestion {
            Some(s) => Some(sugg_view(s)),
            None => None,
        },
    )
}

/// The models at the positions `m` that match the query, in order, each with
/// its best match.
pub open spec fn search_hits(st: AppState, m: Seq<int>, q: Seq<char>) -> Seq<(int, SuggV)>
    decreases m.len(),
{
    if m.len() == 0 {
        Seq::empty()
    } else {
        let p = search_hits(st, m.drop_last(), q);
        match model_suggestion(st.aliases@, st.models@[m.last()], q, DEFAULT_THRESHOLD) {
            Some(s) => p.push((m.last(), s)),
            None => p,
        }
    }
}

/// Search results with a query rank by higher score in whole thousandths,
/// then provider, then id.
pub open spec fn hit_key(ms: Seq<Model>, h: (int, SuggV)) -> Seq<PartV> {
    seq![
        (false, u64::MAX - millis_of(h.1.3 as u64), Seq::<char>::empty()),
        (true, 0int, ms[h.0].provider@),
        (true, 0int, ms[h.0].id@),
    ]
}

pub open spec fn hit_keys(ms: Seq<Model>, hs: Seq<(int, SuggV)>) -> Seq<Seq<PartV>> {
    hs.map_values(|h: (int, SuggV)| hit_key(ms, h))
}

fn hit_sort_key(models: &Vec<Model>, index: usize, s: &SuggestionMatch) -> (r: Vec<KeyPart>)
    requires
        index < models.len(),
    ensures
        key_view(r@) == hit_key(models@, (index as int, sugg_view(*s))),
{
    let inverted = u64::MAX - score_millis(s.score);
    let r = vec![
        KeyPart::Num(inverted),
        KeyPart::Text(models[index].provider.clone()),
        KeyPart::Text(models[index].id.clone()),
    ];
    proof {
        assert(key_view(r@) =~= hit_key(models@, (index as int, sugg_view(*s))));
    }
    r
}

/// The filtered models that match the query, each with its best match.
fn scored_hits(state: &AppState, idx: &Vec<usize>, q: &String) -> (r: (Vec<usize>, Vec<SuggestionMatch>))
    requires
        forall|k: int| 0 <= k < idx@.len() ==> idx@[k] < state.models.len(),
    ensures
        r.0@.len() == r.1@.len(),
        r.0@.len() == search_hits(*state, idx@.map_values(|i: usize| i as int), q@).len(),
        forall|k: int|
            0 <= k < r.0@.len() ==> (r.0@[k] as int, sugg_view(#[trigger] r.1@[k])) == search_hits(
                *state,
                idx@.map_values(|i: usize| i as int),
                q@,
            )[k],
        forall|k: int| 0 <= k < r.0@.len() ==> #[trigger] r.0@[k] < state.models.len(),
{
    let ghost m = idx@.map_values(|i: usize| i as int);
    let mut positions: Vec<usize> = Vec::new();
    let mut found: Vec<SuggestionMatch> = Vec::new();
    let mut j: usize = 0;
    proof {
        assert(m.take(0) =~= Seq::<int>::empty());
    }
    while j < idx.len()
        invariant
            j <= idx.len(),
            m == idx@.map_values(|i: usize| i as int),
            forall|k: int| 0 <= k < idx@.len() ==> idx@[k] < state.models.len(),
            positions@.len() == found@.len(),
            positions@.len() == search_hits(*state, m.take(j as int), q@).len(),
            forall|k: int|
                0 <= k < positions@.len() ==> (positions@[k] as int, sugg_view(#[trigger] found@[k]))
                    == search_hits(*state, m.take(j as int), q@)[k],
            forall|k: int| 0 <= k < positions@.len() ==> #[trigger] positions@[k] < state.models.len(),
        decreases idx.len() - j,
    {
        proof {
            assert(m.take(j + 1).drop_last() =~= m.take(j as int));
            assert(m.take(j + 1).last() == idx@[j as int] as int);
        }
        let i = idx[j];
        match best_model_suggestion(state, &state.models[i], q.as_str(), DEFAULT_THRESHOLD) {
            Some(s) => {
                positions.push(i);
                found.push(s);
            },
            None => {},
        }
        j = j + 1;
    }
    proof {
        assert(m.take(m.len() as int) =~= m);
    }
    (positions, found)
}

/// A search without a query: the filtered models as `list_models` sorts
/// and pages them.
fn search_unscored(state: &AppState, filter: &ModelFilter) -> (r: SearchPage)
    ensures
        ({
            let m = matching(state.models@, *filter);
            &&& r.total == m.len()
            &&& r.offset == page_offset(m.len() as int, filter.offset)
            &&& r.limit == requested_limit(filter.limit, DEFAULT_MODEL_LIMIT as int)
            &&& r.entries@.len() == page_size(m.len() as int, filter.offset, filter.limit, DEFAULT_MODEL_LIMIT as int)
            &&& exists|p: Seq<usize>|
                #[trigger] is_sorted_order(p, sort_keys(state.models@, m, non_empty_spec(filter.sort)), descending(*filter))
                    && forall|k: int|
                    0 <= k < r.entries@.len() ==> entry_view(#[trigger] r.entries@[k]) == (
                        m[p[r.offset + k] as int],
                        None::<SuggV>,
                    )
        }),
{
    let page = list_models(state, filter);
    let mut entries: Vec<SearchEntry> = Vec::new();
    let mut k: usize = 0;
    while k < page.data.len()
        invariant
            k <= page.data.len(),
            entries@.len() == k,
            forall|t: int| 0 <= t < k ==> entry_view(#[trigger] entries@[t]) == (page.data@[t] as int, None::<SuggV>),
        decreases page.data.len() - k,
    {
        entries.push(SearchEntry { index: page.data[k], suggestion: None });
        k = k + 1;
    }
    proof {
        let m = matching(state.models@, *filter);
        let p = choose|p: Seq<usize>|
            #[trigger] is_sorted_order(p, sort_keys(state.models@, m, non_empty_spec(filter.sort)), descending(*filter))
                && forall|k: int|
                0 <= k < page.data@.len() ==> #[trigger] page.data@[k] as int == m[p[page.offset + k] as int];
        assert forall|k: int| 0 <= k < page.data@.len() implies entry_view(#[trigger] entries@[k]) == (
            m[p[page.offset + k] as int],
            None::<SuggV>,
        ) by {
            assert(page.data@[k] as int == m[p[page.offset + k] as int]);
        }
        assert(is_sorted_order(p, sort_keys(state.models@, m, non_empty_spec(filter.sort)), descending(*filter)));
    }
    SearchPage { entries, limit: page.limit, offset: page.offset, total: page.total }
}

/// A search with a non-blank query: the filtered models that match it, best
/// score first, one page of them.
fn search_scored(state: &AppState, qt: &String, filter: &ModelFilter) -> (r: SearchPage)
    ensures
        ({
            let m = matching(state.models@, *filter);
            let hs = search_hits(*state, m, qt@);
            &&& r.total == hs.len()
            &&& r.offset == page_offset(hs.len() as int, filter.offset)
            &&& r.limit == requested_limit(filter.limit, DEFAULT_MODEL_LIMIT as int)
            &&& r.entries@.len() == page_size(hs.len() as int, filter.offset, filter.limit, DEFAULT_MODEL_LIMIT as int)
            &&& exists|p: Seq<usize>|
                #[trigger] is_sorted_order(p, hit_keys(state.models@, hs), false)
                    && forall|k: int|
                    0 <= k < r.entries@.len() ==> entry_view(#[trigger] r.entries@[k]) == (
                        hs[p[r.offset + k] as int].0,
                        Some(hs[p[r.offset + k] as int].1),
                    )
        }),
{
    let idx = matching_positions(&state.models, filter);
    let ghost m = matching(state.models@, *filter);
    proof {
        assert(idx@.map_values(|i: usize| i as int) =~= m);
    }
    let (positions, mut found) = scored_hits(state, &idx, qt);
    let ghost hs = search_hits(*state, m, qt@);
    let mut keys: Vec<Vec<KeyPart>> = Vec::new();
    let mut j: usize = 0;
    while j < positions.len()
        invariant
            j <= positions.len(),
            positions@.len() == found@.len(),
            positions@.len() == hs.len(),
            forall|k: int| 0 <= k < positions@.len() ==> (positions@[k] as int, sugg_view(#[trigger] found@[k])) == hs[k],
            forall|k: int| 0 <= k < positions@.len() ==> #[trigger] positions@[k] < state.models.len(),
            keys_view(keys@) == hit_keys(state.models@, hs.take(j as int)),
        decreases positions.len() - j,
    {
        let key = hit_sort_key(&state.models, positions[j], &found[j]);
        let ghost before = keys@;
        keys.push(key);
        proof {
            assert(keys_view(keys@) =~= keys_view(before).push(key_view(key@)));
            assert(hs[j as int] == (positions@[j as int] as int, sugg_view(found@[j as int])));
            assert(hit_keys(state.models@, hs.take(j + 1)) =~= hit_keys(state.models@, hs.take(j as int)).push(
                hit_key(state.models@, hs[j as int]),
            ));
        }
        j = j + 1;
    }
    proof {
        assert(hs.take(hs.len() as int) =~= hs);
    }
    let order = sort_order(&keys, false);
    let total = positions.len();
    let (off, lim, req) = page_window(total, filter.offset, filter.limit, DEFAULT_MODEL_LIMIT);
    let mut entries: Vec<SearchEntry> = Vec::new();
    let mut k: usize = 0;
    while k < lim
        invariant
            k <= lim,
            off + lim <= total,
            total == positions.len(),
            positions@.len() == hs.len(),
            found@.len() == hs.len(),
            is_sorted_order(order@, hit_keys(state.models@, hs), false),
            forall|x: int| 0 <= x < positions@.len() ==> (positions@[x] as int, sugg_view(#[trigger] found@[x])) == hs[x],
            entries@.len() == k,
            forall|x: int|
                0 <= x < k ==> entry_view(#[trigger] entries@[x]) == (
                    hs[order@[off + x] as int].0,
                    Some(hs[order@[off + x] as int].1),
                ),
        decreases lim - k,
    {
        let pos = order[off + k];
        proof {
            assert(pos < hit_keys(state.models@, hs).len());
        }
        let s = crate::fuzzy::copy_suggestion(&found[pos]);
        entries.push(SearchEntry { index: positions[pos], suggestion: Some(s) });
        k = k + 1;
    }
    proof {
        assert(is_sorted_order(order@, hit_keys(state.models@, hs), false) && entries@.len() == lim);
    }
    SearchPage { entries, limit: req, offset: off, total }
}

/// A search: with a non-blank query, the filtered models that match it,
/// best score first; without one, the filtered models as `list_models` sorts
/// them. Either way one page of them.
pub fn search(state: &AppState, q: &Option<String>, filter: &ModelFilter) -> (r: SearchPage)
    ensures
        ({
            let m = matching(state.models@, *filter);
            match non_empty_spec(*q) {
                Some(qt) => {
                    let hs = search_hits(*state, m, qt);
                    &&& r.total == hs.len()
                    &&& r.offset == page_offset(hs.len() as int, filter.offset)
                    &&& r.limit == requested_limit(filter.limit, DEFAULT_MODEL_LIMIT as int)
                    &&& r.entries@.len() == page_size(hs.len() as int, filter.offset, filter.limit, DEFAULT_MODEL_LIMIT as int)
                    &&& exists|p: Seq<usize>|
                        #[trigger] is_sorted_order(p, hit_keys(state.models@, hs), false)
                            && forall|k: int|
                            0 <= k < r.entries@.len() ==> entry_view(#[trigger] r.entries@[k]) == (
                                hs[p[r.offset + k] as int].0,
                                Some(hs[p[r.offset + k] as int].1),
                            )
                },
                None => {
                    &&& r.total == m.len()
                    &&& r.offset == page_offset(m.len() as int, filter.offset)
                    &&& r.limit == requested_limit(filter.limit, DEFAULT_MODEL_LIMIT as int)
                    &&& r.entries@.len() == page_size(m.len() as int, filter.offset, filter.limit, DEFAULT_MODEL_LIMIT as int)
                    &&& exists|p: Seq<usize>|
                        #[trigger] is_sorted_order(p, sort_keys(state.models@, m, non_empty_spec(filter.sort)), descending(*filter))
                            && forall|k: int|
                            0 <= k < r.entries@.len() ==> entry_view(#[trigger] r.entries@[k]) == (
                                m[p[r.offset + k] as int],
                                None::<SuggV>,
                            )
                },
            }
        }),
{
    match non_empty(q) {
        None => search_unscored(state, filter),
        Some(qt) => search_scored(state, &qt, filter),
    }
}


/// One ranked suggestion with the provider of its model.
#[derive(Debug)]
pub struct SuggestResult {
    pub id: String,
    pub provider: String,
    /// The similarity as the bit pattern of an `f64`.
    pub score: u64,
    pub matched: String,
    pub match_type: String,
}

#[derive(Debug)]
pub struct SuggestPage {
    pub results: Vec<SuggestResult>,
    pub limit: usize,
    pub total: usize,
}

pub open spec fn match_type_text(mt: MatchType) -> Seq<char> {
    match mt {
        MatchType::Id => "id"@,
        MatchType::Alias => "alias"@,
        MatchType::DisplayName => "display_name"@,
    }
}

/// The name of a match type as the API writes it.
pub fn match_type_name(mt: MatchType) -> (r: &'static str)
    ensures
        r@ == match_type_text(mt),
{
    match mt {
        MatchType::Id => "id",
        MatchType::Alias => "alias",
        MatchType::DisplayName => "display_name",
    }
}

/// A suggestion row as (id, provider, score, matched, match type name).
pub type RowV = (Seq<char>, Seq<char>, int, Seq<char>, Seq<char>);

pub open spec fn row_view(r: SuggestResult) -> RowV {
    (r.id@, r.provider@, r.score as int, r.matched@, r.match_type@)
}

pub open spec fn rows_view(v: Seq<SuggestResult>) -> Seq<RowV> {
    v.map_values(|r: SuggestResult| row_view(r))
}

/// The suggestions whose id names a model, each with the provider of the last
/// model with that id.
pub open spec fn suggest_rows(ms: Seq<Model>, ss: Seq<SuggV>) -> Seq<RowV>
    decreases ss.len(),
{
    if ss.len() == 0 {
        Seq::empty()
    } else {
        let p = suggest_rows(ms, ss.drop_last());
        let s = ss.last();
        match last_where(ms, has_id(s.0)) {
            Some(i) => p.push((s.0, ms[i].provider@, s.3, s.1, match_type_text(s.2))),
            None => p,
        }
    }
}

/// The requested number of suggestions: 5 by default, at most 20.
pub open spec fn suggest_limit(limit: Option<usize>) -> int {
    let l = requested_limit(limit, 5);
    if l < 20 {
        l
    } else {
        20
    }
}

fn suggestion_rows(state: &AppState, all: &Vec<SuggestionMatch>) -> (r: Vec<SuggestResult>)
    ensures
        rows_view(r@) == suggest_rows(state.models@, crate::fuzzy::suggs_view(all@)),
{
    let ghost sv = crate::fuzzy::suggs_view(all@);
    let mut out: Vec<SuggestResult> = Vec::new();
    let mut k: usize = 0;
    proof {
        assert(sv.take(0) =~= Seq::<SuggV>::empty());
    }
    while k < all.len()
        invariant
            k <= all.len(),
            sv == crate::fuzzy::suggs_view(all@),
            rows_view(out@) == suggest_rows(state.models@, sv.take(k as int)),
        decreases all.len() - k,
    {
        let s = &all[k];
        proof {
            assert(sv.take(k + 1).drop_last() =~= sv.take(k as int));
            assert(sv.take(k + 1).last() == sugg_view(*s));
        }
        match model_index(&state.models, s.canonical_id.as_str()) {
            Some(i) => {
                let row = SuggestResult {
                    id: s.canonical_id.clone(),
                    provider: state.models[i].provider.clone(),
                    score: s.score,
                    matched: s.matched.clone(),
                    match_type: match_type_name(s.match_type).to_owned(),
                };
                let ghost before = out@;
                out.push(row);
                proof {
                    assert(rows_view(out@) =~= rows_view(before).push(row_view(row)));
                }
            },
            None => {},
        }
        k = k + 1;
    }
    proof {
        assert(sv.take(sv.len() as int) =~= sv);
    }
    out
}

/// Suggestions for a query: every ranked match whose model is known, the
/// first `limit` of them (5 by default, at most 20), with their total.
pub fn suggest(state: &AppState, q: &str, provider: &Option<String>, limit: Option<usize>) -> (r: SuggestPage)
    ensures
        r.limit == suggest_limit(limit),
        ({
            let qt = trim_seq(q@);
            let lim = suggest_limit(limit);
            if qt.len() == 0 {
                r.total == 0 && r.results@.len() == 0
            } else {
                let b = crate::fuzzy::all_best(*state, qt, non_empty_spec(*provider), DEFAULT_THRESHOLD);
                let n = if usize::MAX < b.len() { usize::MAX as int } else { b.len() as int };
                exists|p: Seq<usize>|
                    #[trigger] is_sorted_order(p, crate::fuzzy::cand_keys(b), false) && ({
                        let rows = suggest_rows(state.models@, crate::fuzzy::ranked(b, p, n));
                        r.total == rows.len() && rows_view(r.results@) == rows.take(
                            if lim < rows.len() { lim } else { rows.len() as int },
                        )
                    })
            }
        }),
{
    let prov = non_empty(provider);
    let l = match limit {
        Some(l) => if l > 0 {
            l
        } else {
            5
        },
        None => 5,
    };
    let lim = if l < 20 {
        l
    } else {
        20
    };
    let all = match &prov {
        Some(p) => crate::fuzzy::top_suggestions(state, q, Some(p.as_str()), usize::MAX, DEFAULT_THRESHOLD),
        None => crate::fuzzy::top_suggestions(state, q, None, usize::MAX, DEFAULT_THRESHOLD),
    };
    let rows = suggestion_rows(state, &all);
    let total = rows.len();
    let mut results: Vec<SuggestResult> = Vec::new();
    let ghost rv = rows_view(rows@);
    let mut rows = rows;
    let n = if lim < total {
        lim
    } else {
        total
    };
    let mut k: usize = 0;
    while k < n
        invariant
            k <= n,
            n <= rows.len(),
            rows.len() == total,
            rv.len() == total,
            rows_view(results@) == rv.take(k as int),
            forall|t: int| k <= t < rows.len() ==> row_view(#[trigger] rows@[t]) == rv[t],
        decreases n - k,
    {
        let row = SuggestResult {
            id: rows[k].id.clone(),
            provider: rows[k].provider.clone(),
            score: rows[k].score,
            matched: rows[k].matched.clone(),
            match_type: rows[k].match_type.clone(),
        };
        let ghost before = results@;
        results.push(row);
        proof {
            assert(rows_view(results@) =~= rows_view(before).push(row_view(row)));
            assert(rv.take(k + 1) =~= rv.take(k as int).push(rv[k as int]));
        }
        k = k + 1;
    }
    proof {
        let qt = trim_seq(q@);
        if qt.len() == 0 {
            assert(all@.len() == 0);
            assert(crate::fuzzy::suggs_view(all@) =~= Seq::<SuggV>::empty());
        }
    }
    SuggestPage { results, limit: lim, total }
}


/// One page of a provider or alias listing.
#[derive(Debug)]
pub struct ProviderPage {
    pub data: Vec<usize>,
    pub limit: usize,
    pub offset: usize,
    pub total: usize,
}

pub const DEFAULT_PROVIDER_LIMIT: usize = 50;

pub const DEFAULT_ALIAS_LIMIT: usize = 100;

/// The number of entries a page from `offset` holds with this limit.
pub open spec fn page_count(total: int, offset: int, limit: int) -> int {
    if limit < total - offset {
        limit
    } else {
        total - offset
    }
}

/// Providers in catalog order, one page of them; the limit reported is the
/// one requested (50 by default).
pub fn list_providers(state: &AppState, limit: Option<usize>, offset: Option<usize>) -> (r: ProviderPage)
    ensures
        r.total == state.providers.len(),
        r.offset == page_offset(r.total as int, offset),
        r.limit == requested_limit(limit, DEFAULT_PROVIDER_LIMIT as int),
        r.data@ == Seq::new(
            page_count(r.total as int, r.offset as int, r.limit as int) as nat,
            |k: int| (r.offset + k) as usize,
        ),
{
    let total = state.providers.len();
    let (off, _, _) = page_window(total, offset, limit, DEFAULT_PROVIDER_LIMIT);
    let lim = match limit {
        Some(l) => if l > 0 {
            l
        } else {
            DEFAULT_PROVIDER_LIMIT
        },
        None => DEFAULT_PROVIDER_LIMIT,
    };
    let n = if lim < total - off {
        lim
    } else {
        total - off
    };
    let mut data: Vec<usize> = Vec::new();
    let mut k: usize = 0;
    while k < n
        invariant
            k <= n,
            off + n <= total,
            data@ == Seq::new(k as nat, |t: int| (off + t) as usize),
        decreases n - k,
    {
        data.push(off + k);
        proof {
            assert(data@ =~= Seq::new((k + 1) as nat, |t: int| (off + t) as usize));
        }
        k = k + 1;
    }
    ProviderPage { data, limit: lim, offset: off, total }
}

/// The position of the first provider with this id.
pub fn get_provider(state: &AppState, id: &str) -> (r: Option<usize>)
    ensures
        match r {
            Some(i) => i < state.providers.len() && first_where(state.providers@, crate::state::provider_has_id(id@)) == Some(i as int),
            None => first_where(state.providers@, crate::state::provider_has_id(id@)) is None,
        },
{
    crate::state::provider_index(&state.providers, id)
}

/// An alias with its canonical id and the provider of the last model with
/// that id, if any.
#[derive(Debug)]
pub struct AliasMapping {
    pub alias: String,
    pub canonical_id: String,
    pub provider: Option<String>,
}

pub type MappingV = (Seq<char>, Seq<char>, Option<Seq<char>>);

pub open spec fn mapping_view(a: AliasMapping) -> MappingV {
    (
        a.alias@,
        a.canonical_id@,
        match a.provider {
            Some(p) => Some(p@),
            None => None,
        },
    )
}

pub open spec fn mapping_of(ms: Seq<Model>, alias: Seq<char>, canonical: Seq<char>) -> MappingV {
    (
        alias,
        canonical,
        match last_where(ms, has_id(canonical)) {
            Some(i) => Some(ms[i].provider@),
            None => None,
        },
    )
}

/// The mapping of an alias to its canonical model.
pub fn alias_mapping(state: &AppState, alias: &String, canonical_id: &String) -> (r: AliasMapping)
    ensures
        mapping_view(r) == mapping_of(state.models@, alias@, canonical_id@),
{
    let provider = match model_index(&state.models, canonical_id.as_str()) {
        Some(i) => Some(state.models[i].provider.clone()),
        None => None,
    };
    AliasMapping { alias: alias.clone(), canonical_id: canonical_id.clone(), provider }
}

pub open spec fn alias_keys(al: Seq<(String, String)>) -> Seq<Seq<PartV>> {
    al.map_values(|a: (String, String)| seq![(true, 0int, a.0@)])
}

#[derive(Debug)]
pub struct AliasPage {
    pub data: Vec<AliasMapping>,
    pub limit: usize,
    pub offset: usize,
    pub total: usize,
}

/// Aliases ordered by name, one page of them; the limit reported is the one
/// requested (100 by default).
pub fn list_aliases(state: &AppState, limit: Option<usize>, offset: Option<usize>) -> (r: AliasPage)
    ensures
        r.total == state.aliases.len(),
        r.offset == page_offset(r.total as int, offset),
        r.limit == requested_limit(limit, DEFAULT_ALIAS_LIMIT as int),
        exists|p: Seq<usize>|
            #[trigger] is_sorted_order(p, alias_keys(state.aliases@), false) && r.data@.len()
                == page_count(r.total as int, r.offset as int, r.limit as int) && forall|k: int|
                0 <= k < r.data@.len() ==> mapping_view(#[trigger] r.data@[k]) == mapping_of(
                    state.models@,
                    state.aliases@[p[r.offset + k] as int].0@,
                    state.aliases@[p[r.offset + k] as int].1@,
                ),
{
    let ghost al = state.aliases@;
    let mut keys: Vec<Vec<KeyPart>> = Vec::new();
    let mut j: usize = 0;
    while j < state.aliases.len()
        invariant
            j <= state.aliases.len(),
            al == state.aliases@,
            keys_view(keys@) == alias_keys(al.take(j as int)),
        decreases state.aliases.len() - j,
    {
        let key = vec![KeyPart::Text(state.aliases[j].0.clone())];
        let ghost before = keys@;
        keys.push(key);
        proof {
            assert(key_view(key@) =~= seq![(true, 0int, al[j as int].0@)]);
            assert(keys_view(keys@) =~= keys_view(before).push(key_view(key@)));
            assert(alias_keys(al.take(j + 1)) =~= alias_keys(al.take(j as int)).push(seq![(true, 0int, al[j as int].0@)]));
        }
        j = j + 1;
    }
    proof {
        assert(al.take(al.len() as int) =~= al);
    }
    let order = sort_order(&keys, false);
    let total = state.aliases.len();
    let (off, _, _) = page_window(total, offset, limit, DEFAULT_ALIAS_LIMIT);
    let lim = match limit {
        Some(l) => if l > 0 {
            l
        } else {
            DEFAULT_ALIAS_LIMIT
        },
        None => DEFAULT_ALIAS_LIMIT,
    };
    let n = if lim < total - off {
        lim
    } else {
        total - off
    };
    let mut data: Vec<AliasMapping> = Vec::new();
    let mut k: usize = 0;
    while k < n
        invariant
            k <= n,
            off + n <= total,
            total == al.len(),
            al == state.aliases@,
            is_sorted_order(order@, alias_keys(al), false),
            data@.len() == k,
            forall|t: int|
                0 <= t < k ==> mapping_view(#[trigger] data@[t]) == mapping_of(
                    state.models@,
                    al[order@[off + t] as int].0@,
                    al[order@[off + t] as int].1@,
                ),
        decreases n - k,
    {
        let pos = order[off + k];
        proof {
            assert(pos < alias_keys(al).len());
        }
        let a = &state.aliases[pos];
        data.push(alias_mapping(state, &a.0, &a.1));
        k = k + 1;
    }
    proof {
        assert(is_sorted_order(order@, alias_keys(al), false) && data@.len() == page_count(total as int, off as int, lim as int));
    }
    AliasPage { data, limit: lim, offset: off, total }
}

/// The mapping of the first alias entry with this name.
pub fn get_alias(state: &AppState, alias: &str) -> (r: Option<AliasMapping>)
    ensures
        match first_where(state.aliases@, crate::state::alias_named(alias@)) {
            Some(i) => r matches Some(m) && mapping_view(m) == mapping_of(
                state.models@,
                state.aliases@[i].0@,
                state.aliases@[i].1@,
            ),
            None => r is None,
        },
{
    match crate::state::alias_index(&state.aliases, alias) {
        Some(i) => Some(alias_mapping(state, &state.aliases[i].0, &state.aliases[i].1)),
        None => None,
    }
}


/// A search without a query lists what the model listing lists: the same
/// total, page and models in the same order, none of them scored.
pub proof fn lemma_unqueried_search_is_listing(state: AppState, filter: ModelFilter, page: ModelPage, found: SearchPage)
    requires
        ({
            let m = matching(state.models@, filter);
            let ks = sort_keys(state.models@, m, non_empty_spec(filter.sort));
            &&& page.total == m.len()
            &&& page.offset == page_offset(m.len() as int, filter.offset)
            &&& page.limit == requested_limit(filter.limit, DEFAULT_MODEL_LIMIT as int)
            &&& page.data@.len() == page_size(m.len() as int, filter.offset, filter.limit, DEFAULT_MODEL_LIMIT as int)
            &&& exists|p: Seq<usize>|
                #[trigger] is_sorted_order(p, ks, descending(filter))
                    && forall|k: int| 0 <= k < page.data@.len() ==> #[trigger] page.data@[k] as int == m[p[page.offset + k] as int]
            &&& found.total == m.len()
            &&& found.offset == page_offset(m.len() as int, filter.offset)
            &&& found.limit == requested_limit(filter.limit, DEFAULT_MODEL_LIMIT as int)
            &&& found.entries@.len() == page_size(m.len() as int, filter.offset, filter.limit, DEFAULT_MODEL_LIMIT as int)
            &&& exists|p: Seq<usize>|
                #[trigger] is_sorted_order(p, ks, descending(filter))
                    && forall|k: int|
                    0 <= k < found.entries@.len() ==> entry_view(#[trigger] found.entries@[k]) == (m[p[found.offset + k] as int], None::<SuggV>)
        }),
    ensures
        found.total == page.total,
        found.offset == page.offset,
        found.limit == page.limit,
        found.entries@.len() == page.data@.len(),
        forall|k: int|
            0 <= k < page.data@.len() ==> (#[trigger] found.entries@[k]).index == page.data@[k] && found.entries@[k].suggestion is None,
{
    let m = matching(state.models@, filter);
    let ks = sort_keys(state.models@, m, non_empty_spec(filter.sort));
    let desc = descending(filter);
    let p1 = choose|p: Seq<usize>|
        #[trigger] is_sorted_order(p, ks, desc)
            && forall|k: int| 0 <= k < page.data@.len() ==> #[trigger] page.data@[k] as int == m[p[page.offset + k] as int];
    let p2 = choose|p: Seq<usize>|
        #[trigger] is_sorted_order(p, ks, desc)
            && forall|k: int|
            0 <= k < found.entries@.len() ==> entry_view(#[trigger] found.entries@[k]) == (m[p[found.offset + k] as int], None::<SuggV>);
    crate::sorting::lemma_sorted_order_unique(p1, p2, ks, desc);
    assert forall|k: int| 0 <= k < page.data@.len() implies (#[trigger] found.entries@[k]).index == page.data@[k]
        && found.entries@[k].suggestion is None by {
        assert(entry_view(found.entries@[k]) == (m[p2[found.offset + k] as int], None::<SuggV>));
        assert(page.data@[k] as int == m[p1[page.offset + k] as int]);
    }
}

proof fn lemma_matching_in_range(ms: Seq<Model>, f: ModelFilter, t: int)
    requires
        0 <= t < matching(ms, f).len(),
    ensures
        0 <= matching(ms, f)[t] < ms.len(),
        matches_filter(ms[matching(ms, f)[t]], f),
    decreases ms.len(),
{
    let pre = matching(ms.drop_last(), f);
    if t < pre.len() {
        lemma_matching_in_range(ms.drop_last(), f, t);
        assert(matching(ms, f)[t] == pre[t]);
        assert(ms.drop_last()[pre[t]] == ms[pre[t]]);
    }
}

/// Every model a listing returns is a model of the catalog that has every
/// requested output modality among its output modalities and every
/// requested input modality among its input modalities (each a trimmed
/// comma-separated piece of the filter), and the requested provider.
pub proof fn lemma_listed_models_have_requested_modalities(state: AppState, filter: ModelFilter, r: ModelPage)
    requires
        ({
            let m = matching(state.models@, filter);
            &&& r.total == m.len()
            &&& r.offset == page_offset(m.len() as int, filter.offset)
            &&& r.limit == requested_limit(filter.limit, DEFAULT_MODEL_LIMIT as int)
            &&& r.data@.len() == page_size(m.len() as int, filter.offset, filter.limit, DEFAULT_MODEL_LIMIT as int)
            &&& exists|p: Seq<usize>|
                #[trigger] is_sorted_order(p, sort_keys(state.models@, m, non_empty_spec(filter.sort)), descending(filter))
                    && forall|k: int|
                    0 <= k < r.data@.len() ==> #[trigger] r.data@[k] as int == m[p[r.offset + k] as int]
        }),
    ensures
        forall|k: int|
            0 <= k < r.data@.len() ==> {
                let i = #[trigger] r.data@[k] as int;
                let md = state.models@[i];
                &&& 0 <= i < state.models@.len()
                &&& non_empty_spec(filter.modality_output) matches Some(l) ==> forall|x: int|
                    0 <= x < split_seq(l, ',').len() ==> views(md.modalities.output@).contains(
                        trim_seq(#[trigger] split_seq(l, ',')[x]),
                    )
                &&& non_empty_spec(filter.modality_input) matches Some(l) ==> forall|x: int|
                    0 <= x < split_seq(l, ',').len() ==> views(md.modalities.input@).contains(
                        trim_seq(#[trigger] split_seq(l, ',')[x]),
                    )
                &&& non_empty_spec(filter.provider) matches Some(pv) ==> md.provider@ == pv
            },
{
    let m = matching(state.models@, filter);
    let ks = sort_keys(state.models@, m, non_empty_spec(filter.sort));
    let p = choose|p: Seq<usize>|
        #[trigger] is_sorted_order(p, ks, descending(filter)) && forall|k: int|
            0 <= k < r.data@.len() ==> #[trigger] r.data@[k] as int == m[p[r.offset + k] as int];
    assert forall|k: int| 0 <= k < r.data@.len() implies {
        let i = #[trigger] r.data@[k] as int;
        let md = state.models@[i];
        &&& 0 <= i < state.models@.len()
        &&& non_empty_spec(filter.modality_output) matches Some(l) ==> forall|x: int|
            0 <= x < split_seq(l, ',').len() ==> views(md.modalities.output@).contains(
                trim_seq(#[trigger] split_seq(l, ',')[x]),
            )
        &&& non_empty_spec(filter.modality_input) matches Some(l) ==> forall|x: int|
            0 <= x < split_seq(l, ',').len() ==> views(md.modalities.input@).contains(
                trim_seq(#[trigger] split_seq(l, ',')[x]),
            )
        &&& non_empty_spec(filter.provider) matches Some(pv) ==> md.provider@ == pv
    } by {
        let t = p[r.offset + k] as int;
        assert(p[r.offset + k] < ks.len());
        assert(ks.len() == m.len());
        lemma_matching_in_range(state.models@, filter, t);
    }
}

} // verus!
