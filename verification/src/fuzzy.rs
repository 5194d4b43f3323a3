//! Fuzzy model suggestions: every model id, display name and alias is scored
//! against the query, each model keeps its best match, and the matches are
//! ranked.
//!
//! Similarity scores are the IEEE-754 bit patterns of the non-negative `f64`
//! similarities that `strsim::jaro_winkler` returns; for non-negative floats
//! the bit patterns order exactly as the numbers do, so every comparison of
//! scores here is the comparison of the similarities themselves.
use vstd::prelude::*;
use crate::catalog::Model;
use crate::sorting::{KeyPart, PartV, is_sorted_order, key_compare, key_less, key_view, keys_view, sort_order};
use crate::state::{AppState, first_where, has_id, last_where, model_index};
use crate::text::{lower, lower_seq, trim, trim_seq};

verus! {

/// The bit pattern of the similarity `1.0`, given to exact matches.
pub const EXACT_SCORE: u64 = 0x3ff0_0000_0000_0000;

/// The bit pattern of `0.7`, the similarity below which nothing is suggested.
pub const DEFAULT_THRESHOLD: u64 = 0x3fe6_6666_6666_6666;

/// The bit pattern of the Jaro-Winkler similarity of two texts.
pub uninterp spec fn jaro_winkler_bits(a: Seq<char>, b: Seq<char>) -> u64;

/// `strsim::jaro_winkler`, its `f64` result handed over as its bit pattern.
/// The contract only names the result as a function of the two texts.
#[verifier::external_body]
fn similarity(a: &str, b: &str) -> (r: u64)
    ensures
        r == jaro_winkler_bits(a@, b@),
{
    strsim::jaro_winkler(a, b).to_bits()
}

#[derive(Clone, Copy, Debug, PartialEq, Eq, Structural)]
pub enum MatchType {
    Id,
    Alias,
    DisplayName,
}

#[derive(Debug)]
pub struct SuggestionMatch {
    pub canonical_id: String,
    pub matched: String,
    pub match_type: MatchType,
    /// The similarity as the bit pattern of an `f64`.
    pub score: u64,
}

#[derive(Debug)]
pub struct Candidate {
    pub suggestion: SuggestionMatch,
    pub rank: u8,
}

/// A candidate as (rank, score, canonical id, matched text, match type).
pub type CandV = (int, int, Seq<char>, Seq<char>, MatchType);

pub open spec fn cand_view(c: Candidate) -> CandV {
    (
        c.rank as int,
        c.suggestion.score as int,
        c.suggestion.canonical_id@,
        c.suggestion.matched@,
        c.suggestion.match_type,
    )
}

pub open spec fn cands_view(v: Seq<Candidate>) -> Seq<CandV> {
    v.map_values(|c: Candidate| cand_view(c))
}

/// A suggestion as (canonical id, matched text, match type, score).
pub type SuggV = (Seq<char>, Seq<char>, MatchType, int);

pub open spec fn sugg_view(s: SuggestionMatch) -> SuggV {
    (s.canonical_id@, s.matched@, s.match_type, s.score as int)
}

pub open spec fn suggs_view(v: Seq<SuggestionMatch>) -> Seq<SuggV> {
    v.map_values(|s: SuggestionMatch| sugg_view(s))
}

pub open spec fn cand_sugg(c: CandV) -> SuggV {
    (c.2, c.3, c.4, c.1)
}

/// Exact matches of an id, an alias and a display name rank 0, 1 and 2;
/// every other match ranks 3.
pub open spec fn rank_of(mt: MatchType, exact: bool) -> int {
    if !exact {
        3
    } else {
        match mt {
            MatchType::Id => 0,
            MatchType::Alias => 1,
            MatchType::DisplayName => 2,
        }
    }
}

/// Candidates order by rank, then by higher score, then by id, then by the
/// matched text.
pub open spec fn cand_key(c: CandV) -> Seq<PartV> {
    seq![
        (false, c.0, Seq::<char>::empty()),
        (false, u64::MAX - c.1, Seq::<char>::empty()),
        (true, 0, c.2),
        (true, 0, c.3),
    ]
}

pub open spec fn cand_keys(v: Seq<CandV>) -> Seq<Seq<PartV>> {
    v.map_values(|c: CandV| cand_key(c))
}

/// The candidate for matching `matched` (of the model `id`) against the
/// trimmed query `q`, unless its score is below `threshold`. A match that
/// equals the query up to ASCII case scores `EXACT_SCORE`.
pub open spec fn cand_of(id: Seq<char>, matched: Seq<char>, mt: MatchType, q: Seq<char>, threshold: u64) -> Option<CandV> {
    let exact = lower_seq(matched) == lower_seq(q);
    let score: u64 = if exact {
        EXACT_SCORE
    } else {
        jaro_winkler_bits(lower_seq(q), lower_seq(matched))
    };
    if score < threshold {
        None
    } else {
        Some((rank_of(mt, exact), score as int, id, matched, mt))
    }
}

pub open spec fn same_id(id: Seq<char>) -> spec_fn(CandV) -> bool {
    |b: CandV| b.2 == id
}

/// Keeps, per model id, the first candidate that no later one beats.
pub open spec fn best_step(best: Seq<CandV>, c: Option<CandV>) -> Seq<CandV> {
    match c {
        None => best,
        Some(c) => match first_where(best, same_id(c.2)) {
            Some(j) => if key_less(cand_key(c), cand_key(best[j])) {
                best.update(j, c)
            } else {
                best
            },
            None => best.push(c),
        },
    }
}

pub open spec fn provider_ok(provider: Option<Seq<char>>, m: Model) -> bool {
    provider matches Some(p) ==> m.provider@ == p
}

/// The best candidates after scoring the ids and display names of the
/// models, model by model.
pub open spec fn best_of_models(ms: Seq<Model>, q: Seq<char>, provider: Option<Seq<char>>, threshold: u64) -> Seq<CandV>
    decreases ms.len(),
{
    if ms.len() == 0 {
        Seq::empty()
    } else {
        let b = best_of_models(ms.drop_last(), q, provider, threshold);
        let m = ms.last();
        if provider_ok(provider, m) {
            best_step(
                best_step(b, cand_of(m.id@, m.id@, MatchType::Id, q, threshold)),
                cand_of(m.id@, m.display_name@, MatchType::DisplayName, q, threshold),
            )
        } else {
            b
        }
    }
}

/// Then the aliases, each standing for the last model with its target id.
pub open spec fn best_of_aliases(
    b: Seq<CandV>,
    al: Seq<(String, String)>,
    ms: Seq<Model>,
    q: Seq<char>,
    provider: Option<Seq<char>>,
    threshold: u64,
) -> Seq<CandV>
    decreases al.len(),
{
    if al.len() == 0 {
        b
    } else {
        let prev = best_of_aliases(b, al.drop_last(), ms, q, provider, threshold);
        let a = al.last();
        match last_where(ms, has_id(a.1@)) {
            Some(i) => if provider_ok(provider, ms[i]) {
                best_step(prev, cand_of(ms[i].id@, a.0@, MatchType::Alias, q, threshold))
            } else {
                prev
            },
            None => prev,
        }
    }
}

pub open spec fn all_best(st: AppState, q: Seq<char>, provider: Option<Seq<char>>, threshold: u64) -> Seq<CandV> {
    best_of_aliases(
        best_of_models(st.models@, q, provider, threshold),
        st.aliases@,
        st.models@,
        q,
        provider,
        threshold,
    )
}

/// The first `n` of the candidates `b` in the order `p`, as suggestions.
pub open spec fn ranked(b: Seq<CandV>, p: Seq<usize>, n: int) -> Seq<SuggV> {
    Seq::new(n as nat, |k: int| cand_sugg(b[p[k] as int]))
}

pub open spec fn opt_str(v: Option<&str>) -> Option<Seq<char>> {
    match v {
        Some(s) => Some(s@),
        None => None,
    }
}

fn candidate_key(c: &Candidate) -> (r: Vec<KeyPart>)
    ensures
        key_view(r@) == cand_key(cand_view(*c)),
{
    let inverted = u64::MAX - c.suggestion.score;
    let r = vec![
        KeyPart::Num(c.rank as u64),
        KeyPart::Num(inverted),
        KeyPart::Text(c.suggestion.canonical_id.clone()),
        KeyPart::Text(c.suggestion.matched.clone()),
    ];
    proof {
        assert(key_view(r@) =~= cand_key(cand_view(*c)));
    }
    r
}

pub fn copy_suggestion(s: &SuggestionMatch) -> (r: SuggestionMatch)
    ensures
        sugg_view(r) == sugg_view(*s),
{
    SuggestionMatch {
        canonical_id: s.canonical_id.clone(),
        matched: s.matched.clone(),
        match_type: s.match_type,
        score: s.score,
    }
}

/// Scores `matched` against the query and keeps the candidate when it is
/// the best so far for the model `id`.
fn add_candidate(
    best: &mut Vec<Candidate>,
    id: &String,
    matched: &str,
    match_type: MatchType,
    query: &str,
    query_normalized: &str,
    threshold: u64,
)
    requires
        query_normalized@ == lower_seq(query@),
    ensures
        cands_view(final(best)@) == best_step(
            cands_view(old(best)@),
            cand_of(id@, matched@, match_type, query@, threshold),
        ),
{
    let lm = lower(matched);
    let exact = lm == query_normalized.to_owned();
    let score = if exact {
        EXACT_SCORE
    } else {
        similarity(query_normalized, lm.as_str())
    };
    proof {
        assert(lm@ == lower_seq(matched@));
        assert(exact == (lower_seq(matched@) == lower_seq(query@)));
        assert(!exact ==> score == jaro_winkler_bits(lower_seq(query@), lower_seq(matched@)));
    }
    if score >= threshold {
        add_scored(best, id, matched, match_type, exact, score, Ghost(query@), Ghost(threshold));
    }
}

fn add_scored(
    best: &mut Vec<Candidate>,
    id: &String,
    matched: &str,
    match_type: MatchType,
    exact: bool,
    score: u64,
    Ghost(q): Ghost<Seq<char>>,
    Ghost(threshold): Ghost<u64>,
)
    requires
        exact == (lower_seq(matched@) == lower_seq(q)),
        !exact ==> score == jaro_winkler_bits(lower_seq(q), lower_seq(matched@)),
        exact ==> score == EXACT_SCORE,
        score >= threshold,
    ensures
        cands_view(final(best)@) == best_step(
            cands_view(old(best)@),
            cand_of(id@, matched@, match_type, q, threshold),
        ),
{
    let rank: u8 = if !exact {
        3
    } else {
        match match_type {
            MatchType::Id => 0,
            MatchType::Alias => 1,
            MatchType::DisplayName => 2,
        }
    };
    let candidate = Candidate {
        suggestion: SuggestionMatch {
            canonical_id: id.clone(),
            matched: matched.to_owned(),
            match_type,
            score,
        },
        rank,
    };
    let ghost c = cand_view(candidate);
    let ghost bv = cands_view(best@);
    proof {
        assert(cand_of(id@, matched@, match_type, q, threshold) == Some(c));
    }
    match find_same_id(best, id) {
        Some(j) => {
            let new_key = candidate_key(&candidate);
            let old_key = candidate_key(&best[j]);
            let (less, _) = key_compare(&new_key, &old_key);
            if less {
                best.set(j, candidate);
                proof {
                    assert(cands_view(best@) =~= bv.update(j as int, c));
                }
            }
        },
        None => {
            best.push(candidate);
            proof {
                assert(cands_view(best@) =~= bv.push(c));
            }
        },
    }
}

/// The position of the first candidate for the model `id`.
fn find_same_id(best: &Vec<Candidate>, id: &String) -> (r: Option<usize>)
    ensures
        r matches Some(j) ==> j < best.len() && first_where(cands_view(best@), same_id(id@)) == Some(
            j as int,
        ),
        r is None ==> first_where(cands_view(best@), same_id(id@)) is None,
{
    let ghost bv = cands_view(best@);
    let mut j: usize = 0;
    while j < best.len()
        invariant
            j <= best.len(),
            bv == cands_view(best@),
            forall|k: int| 0 <= k < j ==> !same_id(id@)(#[trigger] bv[k]),
        decreases best.len() - j,
    {
        if best[j].suggestion.canonical_id == *id {
            proof {
                assert(same_id(id@)(bv[j as int]));
                lemma_first_found(bv, same_id(id@), j as int);
            }
            return Some(j);
        }
        proof {
            assert(!same_id(id@)(bv[j as int]));
        }
        j = j + 1;
    }
    proof {
        lemma_first_absent(bv, same_id(id@));
    }
    None
}

proof fn lemma_first_found(s: Seq<CandV>, p: spec_fn(CandV) -> bool, k: int)
    requires
        0 <= k < s.len(),
        p(s[k]),
        forall|j: int| 0 <= j < k ==> !p(#[trigger] s[j]),
    ensures
        first_where(s, p) == Some(k),
    decreases k,
{
    if k > 0 {
        lemma_first_found(s.drop_first(), p, k - 1);
    }
}

proof fn lemma_first_absent(s: Seq<CandV>, p: spec_fn(CandV) -> bool)
    requires
        forall|j: int| 0 <= j < s.len() ==> !p(#[trigger] s[j]),
    ensures
        first_where(s, p) is None,
    decreases s.len(),
{
    if s.len() > 0 {
        lemma_first_absent(s.drop_first(), p);
    }
}


fn provider_passes(provider: &Option<String>, m: &Model) -> (r: bool)
    ensures
        r == provider_ok(opt_string(*provider), *m),
{
    match provider {
        Some(p) => m.provider == *p,
        None => true,
    }
}

pub open spec fn opt_string(v: Option<String>) -> Option<Seq<char>> {
    match v {
        Some(s) => Some(s@),
        None => None,
    }
}

fn keys_of(best: &Vec<Candidate>) -> (r: Vec<Vec<KeyPart>>)
    ensures
        keys_view(r@) == cand_keys(cands_view(best@)),
{
    let mut r: Vec<Vec<KeyPart>> = Vec::new();
    let mut i: usize = 0;
    while i < best.len()
        invariant
            i <= best.len(),
            keys_view(r@) == cand_keys(cands_view(best@.take(i as int))),
        decreases best.len() - i,
    {
        let ghost before = r@;
        let key = candidate_key(&best[i]);
        r.push(key);
        proof {
            assert(keys_view(r@) =~= keys_view(before).push(key_view(key@)));
            assert(cands_view(best@.take(i + 1)) =~= cands_view(best@.take(i as int)).push(
                cand_view(best@[i as int]),
            ));
            assert(keys_view(r@) =~= cand_keys(cands_view(best@.take(i + 1))));
        }
        i = i + 1;
    }
    proof {
        assert(best@.take(best.len() as int) =~= best@);
    }
    r
}

/// The best candidate of every model for the trimmed query, before ranking.
fn best_candidates(state: &AppState, q: &String, provider: &Option<String>, threshold: u64) -> (r:
    Vec<Candidate>)
    ensures
        cands_view(r@) == all_best(*state, q@, opt_string(*provider), threshold),
{
    let qn = lower(q.as_str());
    let ghost prov = opt_string(*provider);
    let ghost ms = state.models@;
    let mut best: Vec<Candidate> = Vec::new();
    let mut i: usize = 0;
    proof {
        assert(ms.take(0) =~= Seq::<Model>::empty());
    }
    while i < state.models.len()
        invariant
            i <= state.models.len(),
            ms == state.models@,
            prov == opt_string(*provider),
            qn@ == lower_seq(q@),
            cands_view(best@) == best_of_models(ms.take(i as int), q@, prov, threshold),
        decreases state.models.len() - i,
    {
        let m = &state.models[i];
        proof {
            assert(ms.take(i + 1).drop_last() =~= ms.take(i as int));
            assert(ms.take(i + 1).last() == *m);
        }
        if provider_passes(provider, m) {
            add_candidate(&mut best, &m.id, m.id.as_str(), MatchType::Id, q.as_str(), qn.as_str(), threshold);
            add_candidate(
                &mut best,
                &m.id,
                m.display_name.as_str(),
                MatchType::DisplayName,
                q.as_str(),
                qn.as_str(),
                threshold,
            );
        }
        i = i + 1;
    }
    proof {
        assert(ms.take(ms.len() as int) =~= ms);
    }
    let ghost b0 = cands_view(best@);
    let ghost al = state.aliases@;
    let mut k: usize = 0;
    proof {
        assert(al.take(0) =~= Seq::<(String, String)>::empty());
    }
    while k < state.aliases.len()
        invariant
            k <= state.aliases.len(),
            ms == state.models@,
            al == state.aliases@,
            prov == opt_string(*provider),
            qn@ == lower_seq(q@),
            b0 == best_of_models(ms, q@, prov, threshold),
            cands_view(best@) == best_of_aliases(b0, al.take(k as int), ms, q@, prov, threshold),
        decreases state.aliases.len() - k,
    {
        let a = &state.aliases[k];
        proof {
            assert(al.take(k + 1).drop_last() =~= al.take(k as int));
            assert(al.take(k + 1).last() == *a);
        }
        match model_index(&state.models, a.1.as_str()) {
            Some(j) => {
                let m = &state.models[j];
                if provider_passes(provider, m) {
                    add_candidate(
                        &mut best,
                        &m.id,
                        a.0.as_str(),
                        MatchType::Alias,
                        q.as_str(),
                        qn.as_str(),
                        threshold,
                    );
                }
            },
            None => {},
        }
        k = k + 1;
    }
    proof {
        assert(al.take(al.len() as int) =~= al);
    }
    best
}

/// The best match of each model for the query, ranked, at most `limit` of
/// them; nothing for a blank query or a zero limit.
pub fn top_suggestions(
    state: &AppState,
    query: &str,
    provider: Option<&str>,
    limit: usize,
    threshold: u64,
) -> (r: Vec<SuggestionMatch>)
    ensures
        ({
            let q = trim_seq(query@);
            if q.len() == 0 || limit == 0 {
                r@.len() == 0
            } else {
                let b = all_best(*state, q, opt_str(provider), threshold);
                exists|p: Seq<usize>|
                    is_sorted_order(p, cand_keys(b), false) && suggs_view(r@) == ranked(
                        b,
                        p,
                        if limit < b.len() {
                            limit as int
                        } else {
                            b.len() as int
                        },
                    )
            }
        }),
{
    let q = trim(query);
    if q.as_str().is_empty() || limit == 0 {
        return Vec::new();
    }
    let prov: Option<String> = match provider {
        Some(p) => Some(p.to_owned()),
        None => None,
    };
    let best = best_candidates(state, &q, &prov, threshold);
    let ghost b = cands_view(best@);
    let keys = keys_of(&best);
    let order = sort_order(&keys, false);
    let n = if limit < best.len() {
        limit
    } else {
        best.len()
    };
    let mut out: Vec<SuggestionMatch> = Vec::new();
    let mut k: usize = 0;
    while k < n
        invariant
            k <= n,
            n <= best.len(),
            b == cands_view(best@),
            is_sorted_order(order@, cand_keys(b), false),
            suggs_view(out@) == ranked(b, order@, k as int),
        decreases n - k,
    {
        let ghost before = out@;
        proof {
            assert(order@[k as int] < cand_keys(b).len());
        }
        let s = copy_suggestion(&best[order[k]].suggestion);
        out.push(s);
        proof {
            assert(b[order@[k as int] as int] == cand_view(best@[order@[k as int] as int]));
            assert(sugg_view(s) == cand_sugg(b[order@[k as int] as int]));
            assert(suggs_view(out@) =~= suggs_view(before).push(sugg_view(s)));
            assert(suggs_view(out@) =~= ranked(b, order@, k + 1));
        }
        k = k + 1;
    }
    proof {
        assert(is_sorted_order(order@, cand_keys(b), false) && suggs_view(out@) == ranked(b, order@, n as int));
    }
    out
}

/// The canonical ids and scores of the best suggestions for a query.
pub fn top_matches(state: &AppState, query: &str, limit: usize, threshold: u64) -> (r: Vec<(String, u64)>)
    ensures
        ({
            let q = trim_seq(query@);
            if q.len() == 0 || limit == 0 {
                r@.len() == 0
            } else {
                let b = all_best(*state, q, None, threshold);
                exists|p: Seq<usize>|
                    is_sorted_order(p, cand_keys(b), false) && r@.len() == (if limit < b.len() {
                        limit as int
                    } else {
                        b.len() as int
                    }) && forall|k: int|
                        0 <= k < r@.len() ==> (#[trigger] r@[k]).0@ == b[p[k] as int].2 && r@[k].1 as int
                            == b[p[k] as int].1
            }
        }),
{
    let s = top_suggestions(state, query, None, limit, threshold);
    let ghost sv = suggs_view(s@);
    let mut out: Vec<(String, u64)> = Vec::new();
    let mut k: usize = 0;
    while k < s.len()
        invariant
            k <= s.len(),
            sv == suggs_view(s@),
            out.len() == k,
            forall|j: int| 0 <= j < k ==> (#[trigger] out@[j]).0@ == sv[j].0 && out@[j].1 as int == sv[j].3,
        decreases s.len() - k,
    {
        out.push((s[k].canonical_id.clone(), s[k].score));
        k = k + 1;
    }
    proof {
        let q = trim_seq(query@);
        if !(q.len() == 0 || limit == 0) {
            let b = all_best(*state, q, None, threshold);
            let n = if limit < b.len() { limit as int } else { b.len() as int };
            let p = choose|p: Seq<usize>|
                is_sorted_order(p, cand_keys(b), false) && suggs_view(s@) == ranked(b, p, n);
            assert(sv.len() == n);
            assert forall|k: int| 0 <= k < out@.len() implies (#[trigger] out@[k]).0@ == b[p[k] as int].2
                && out@[k].1 as int == b[p[k] as int].1 by {
                assert(sv[k] == ranked(b, p, n)[k]);
                assert(ranked(b, p, n)[k] == cand_sugg(b[p[k] as int]));
            }
            assert(is_sorted_order(p, cand_keys(b), false) && out@.len() == n);
        }
    }
    out
}


/// The best candidates of one model: its id, its display name, then each
/// alias that names its id.
pub open spec fn best_for_aliases(b: Seq<CandV>, al: Seq<(String, String)>, m: Model, q: Seq<char>, threshold: u64) -> Seq<CandV>
    decreases al.len(),
{
    if al.len() == 0 {
        b
    } else {
        let prev = best_for_aliases(b, al.drop_last(), m, q, threshold);
        let a = al.last();
        if a.1@ == m.id@ {
            best_step(prev, cand_of(m.id@, a.0@, MatchType::Alias, q, threshold))
        } else {
            prev
        }
    }
}

pub open spec fn best_for_model(al: Seq<(String, String)>, m: Model, q: Seq<char>, threshold: u64) -> Seq<CandV> {
    best_for_aliases(
        best_step(
            best_step(Seq::empty(), cand_of(m.id@, m.id@, MatchType::Id, q, threshold)),
            cand_of(m.id@, m.display_name@, MatchType::DisplayName, q, threshold),
        ),
        al,
        m,
        q,
        threshold,
    )
}

/// The best match of one model for the query, as a suggestion.
pub open spec fn model_suggestion(al: Seq<(String, String)>, m: Model, q: Seq<char>, threshold: u64) -> Option<SuggV> {
    let b = best_for_model(al, m, q, threshold);
    if b.len() == 0 {
        None
    } else {
        Some(cand_sugg(b[0]))
    }
}

/// The best match of one model, by its id, its display name and the aliases
/// that name its id, for the query as given.
pub fn best_model_suggestion(state: &AppState, model: &Model, query: &str, threshold: u64) -> (r: Option<SuggestionMatch>)
    ensures
        match r {
            Some(s) => model_suggestion(state.aliases@, *model, query@, threshold) == Some(sugg_view(s)),
            None => model_suggestion(state.aliases@, *model, query@, threshold) is None,
        },
{
    let qn = lower(query);
    let mut best: Vec<Candidate> = Vec::new();
    add_candidate(&mut best, &model.id, model.id.as_str(), MatchType::Id, query, qn.as_str(), threshold);
    add_candidate(
        &mut best,
        &model.id,
        model.display_name.as_str(),
        MatchType::DisplayName,
        query,
        qn.as_str(),
        threshold,
    );
    let ghost b0 = cands_view(best@);
    let ghost al = state.aliases@;
    let mut k: usize = 0;
    proof {
        assert(al.take(0) =~= Seq::<(String, String)>::empty());
    }
    while k < state.aliases.len()
        invariant
            k <= state.aliases.len(),
            al == state.aliases@,
            qn@ == lower_seq(query@),
            cands_view(best@) == best_for_aliases(b0, al.take(k as int), *model, query@, threshold),
            b0 == best_step(
                best_step(Seq::empty(), cand_of(model.id@, model.id@, MatchType::Id, query@, threshold)),
                cand_of(model.id@, model.display_name@, MatchType::DisplayName, query@, threshold),
            ),
        decreases state.aliases.len() - k,
    {
        let a = &state.aliases[k];
        proof {
            assert(al.take(k + 1).drop_last() =~= al.take(k as int));
            assert(al.take(k + 1).last() == *a);
        }
        if a.1 == model.id {
            add_candidate(&mut best, &model.id, a.0.as_str(), MatchType::Alias, query, qn.as_str(), threshold);
        }
        k = k + 1;
    }
    proof {
        assert(al.take(al.len() as int) =~= al);
    }
    if best.len() == 0 {
        None
    } else {
        proof {
            assert(cands_view(best@)[0] == cand_view(best@[0]));
        }
        Some(copy_suggestion(&best[0].suggestion))
    }
}

/// Some model has this provider and this id.
pub open spec fn model_of_provider(ms: Seq<Model>, provider: Seq<char>, id: Seq<char>) -> bool {
    exists|j: int| 0 <= j < ms.len() && (#[trigger] ms[j]).provider@ == provider && ms[j].id@ == id
}

/// Every candidate names a model of the provider.
pub open spec fn cands_of_provider(b: Seq<CandV>, ms: Seq<Model>, provider: Seq<char>) -> bool {
    forall|k: int| 0 <= k < b.len() ==> model_of_provider(ms, provider, (#[trigger] b[k]).2)
}

proof fn lemma_last_where_in_range<A>(s: Seq<A>, p: spec_fn(A) -> bool)
    ensures
        last_where(s, p) matches Some(i) ==> 0 <= i < s.len() && p(s[i]),
    decreases s.len(),
{
    if s.len() > 0 && !p(s.last()) {
        lemma_last_where_in_range(s.drop_last(), p);
        if let Some(i) = last_where(s.drop_last(), p) {
            assert(s.drop_last()[i] == s[i]);
        }
    }
}

proof fn lemma_first_where_in_range<A>(s: Seq<A>, p: spec_fn(A) -> bool)
    ensures
        first_where(s, p) matches Some(i) ==> 0 <= i < s.len(),
    decreases s.len(),
{
    if s.len() > 0 && !p(s[0]) {
        lemma_first_where_in_range(s.drop_first(), p);
    }
}

proof fn lemma_step_of_provider(best: Seq<CandV>, c: Option<CandV>, ms: Seq<Model>, provider: Seq<char>)
    requires
        cands_of_provider(best, ms, provider),
        c matches Some(x) ==> model_of_provider(ms, provider, x.2),
    ensures
        cands_of_provider(best_step(best, c), ms, provider),
{
    let r = best_step(best, c);
    if let Some(x) = c {
        lemma_first_where_in_range(best, same_id(x.2));
        match first_where(best, same_id(x.2)) {
            Some(j) => {
                if key_less(cand_key(x), cand_key(best[j])) {
                    assert forall|k: int| 0 <= k < r.len() implies model_of_provider(ms, provider, (#[trigger] r[k]).2) by {
                        if k != j {
                            assert(r[k] == best[k]);
                        }
                    }
                }
            },
            None => {
                assert forall|k: int| 0 <= k < r.len() implies model_of_provider(ms, provider, (#[trigger] r[k]).2) by {
                    if k < best.len() {
                        assert(r[k] == best[k]);
                    }
                }
            },
        }
    }
}

proof fn lemma_lift_provider(ms: Seq<Model>, provider: Seq<char>, id: Seq<char>)
    requires
        ms.len() > 0,
        model_of_provider(ms.drop_last(), provider, id),
    ensures
        model_of_provider(ms, provider, id),
{
    let j = choose|j: int| 0 <= j < ms.drop_last().len() && (#[trigger] ms.drop_last()[j]).provider@ == provider
        && ms.drop_last()[j].id@ == id;
    assert(ms[j] == ms.drop_last()[j]);
}

proof fn lemma_models_of_provider(ms: Seq<Model>, q: Seq<char>, provider: Seq<char>, threshold: u64)
    ensures
        cands_of_provider(best_of_models(ms, q, Some(provider), threshold), ms, provider),
    decreases ms.len(),
{
    if ms.len() > 0 {
        let pre = ms.drop_last();
        lemma_models_of_provider(pre, q, provider, threshold);
        let b0 = best_of_models(pre, q, Some(provider), threshold);
        assert forall|k: int| 0 <= k < b0.len() implies model_of_provider(ms, provider, (#[trigger] b0[k]).2) by {
            lemma_lift_provider(ms, provider, b0[k].2);
        }
        let m = ms.last();
        if provider_ok(Some(provider), m) {
            assert(ms[ms.len() - 1] == m);
            assert(model_of_provider(ms, provider, m.id@));
            let c1 = cand_of(m.id@, m.id@, MatchType::Id, q, threshold);
            lemma_step_of_provider(b0, c1, ms, provider);
            let c2 = cand_of(m.id@, m.display_name@, MatchType::DisplayName, q, threshold);
            lemma_step_of_provider(best_step(b0, c1), c2, ms, provider);
        }
    }
}

proof fn lemma_aliases_of_provider(
    b: Seq<CandV>,
    al: Seq<(String, String)>,
    ms: Seq<Model>,
    q: Seq<char>,
    provider: Seq<char>,
    threshold: u64,
)
    requires
        cands_of_provider(b, ms, provider),
    ensures
        cands_of_provider(best_of_aliases(b, al, ms, q, Some(provider), threshold), ms, provider),
    decreases al.len(),
{
    if al.len() > 0 {
        lemma_aliases_of_provider(b, al.drop_last(), ms, q, provider, threshold);
        let prev = best_of_aliases(b, al.drop_last(), ms, q, Some(provider), threshold);
        let a = al.last();
        lemma_last_where_in_range(ms, has_id(a.1@));
        if let Some(i) = last_where(ms, has_id(a.1@)) {
            if provider_ok(Some(provider), ms[i]) {
                assert(model_of_provider(ms, provider, ms[i].id@));
                lemma_step_of_provider(prev, cand_of(ms[i].id@, a.0@, MatchType::Alias, q, threshold), ms, provider);
            }
        }
    }
}

/// Suggestions asked for one provider keep to it: every suggestion names
/// (by its canonical id) a model of that provider, whether it matched by id,
/// display name or alias.
pub proof fn lemma_suggestions_keep_to_provider(
    state: AppState,
    query: Seq<char>,
    provider: Seq<char>,
    limit: usize,
    threshold: u64,
    r: Seq<SuggestionMatch>,
)
    requires
        ({
            let q = trim_seq(query);
            if q.len() == 0 || limit == 0 {
                r.len() == 0
            } else {
                let b = all_best(state, q, Some(provider), threshold);
                exists|p: Seq<usize>|
                    is_sorted_order(p, cand_keys(b), false) && suggs_view(r) == ranked(
                        b,
                        p,
                        if limit < b.len() {
                            limit as int
                        } else {
                            b.len() as int
                        },
                    )
            }
        }),
    ensures
        forall|k: int| 0 <= k < r.len() ==> model_of_provider(state.models@, provider, (#[trigger] r[k]).canonical_id@),
{
    let q = trim_seq(query);
    if !(q.len() == 0 || limit == 0) {
        let ms = state.models@;
        let b = all_best(state, q, Some(provider), threshold);
        lemma_models_of_provider(ms, q, provider, threshold);
        lemma_aliases_of_provider(best_of_models(ms, q, Some(provider), threshold), state.aliases@, ms, q, provider, threshold);
        let n = if limit < b.len() { limit as int } else { b.len() as int };
        let p = choose|p: Seq<usize>| is_sorted_order(p, cand_keys(b), false) && suggs_view(r) == ranked(b, p, n);
        assert(suggs_view(r).len() == r.len());
        assert(cand_keys(b).len() == b.len());
        assert forall|k: int| 0 <= k < r.len() implies model_of_provider(ms, provider, (#[trigger] r[k]).canonical_id@) by {
            assert(suggs_view(r)[k] == sugg_view(r[k]));
            assert(ranked(b, p, n)[k] == cand_sugg(b[p[k] as int]));
            assert(p[k] < cand_keys(b).len());
            assert(model_of_provider(ms, provider, b[p[k] as int].2));
        }
    }
}

} // verus!
