//! The Deepgram spider: model families from the documentation page, and the
//! per-minute rates of the pricing page.
use vstd::prelude::*;
use crate::catalog::Nanos;
use crate::scraped::ScrapedModel;
use crate::scope::{contains_text, dedup, lemma_push_contains};
use crate::spiders::{
    HtmlResponse, PageParts, SpiderOutput, bare_models, keep_page_models, owned_list, page_ids,
    prefix_rule, rule_keeps, starts_with_any,
};
use crate::model_ids::bare_model;
use crate::text::{starts_with, views};

verus! {

/// The Aura family that a per-voice id belongs to: `aura-2-<voice>-<lang>`
/// belongs to `aura-2` (likewise `aura-1`); a bare family id or any other id
/// belongs to none.
pub open spec fn aura_family(id: Seq<char>) -> Option<Seq<char>> {
    if "aura-2-"@.is_prefix_of(id) {
        Some("aura-2"@)
    } else if "aura-1-"@.is_prefix_of(id) {
        Some("aura-1"@)
    } else {
        None
    }
}

/// The Aura base family of a per-voice variant id, or `None` when the id is
/// a bare family id or not an Aura id at all.
pub fn aura_base_family(id: &str) -> (r: Option<&'static str>)
    ensures
        match aura_family(id@) {
            Some(b) => r matches Some(s) && s@ == b,
            None => r is None,
        },
{
    if starts_with(id, "aura-2-") {
        Some("aura-2")
    } else if starts_with(id, "aura-1-") {
        Some("aura-1")
    } else {
        None
    }
}

/// The id the catalog tracks for a scraped id: its Aura family, or itself.
pub open spec fn family_of(id: Seq<char>) -> Seq<char> {
    match aura_family(id) {
        Some(b) => b,
        None => id,
    }
}

pub open spec fn family_ids(ids: Seq<Seq<char>>) -> Seq<Seq<char>>
    decreases ids.len(),
{
    if ids.len() == 0 {
        ids
    } else {
        family_ids(ids.drop_last()).push(family_of(ids.last()))
    }
}

/// Some id starts with `flux-`.
pub open spec fn any_flux(ids: Seq<Seq<char>>) -> bool {
    exists|i: int| 0 <= i < ids.len() && "flux-"@.is_prefix_of(#[trigger] ids[i])
}

/// The family ids, each once in order of first appearance, followed by the
/// bare `flux` family when some id is a `flux-*` variant and `flux` is not
/// already there.
pub open spec fn normalized_ids(ids: Seq<Seq<char>>) -> Seq<Seq<char>> {
    let f = family_ids(ids);
    let d = dedup(f);
    if any_flux(f) && !d.contains("flux"@) {
        d.push("flux"@)
    } else {
        d
    }
}

proof fn lemma_any_flux_push(s: Seq<Seq<char>>, x: Seq<char>)
    ensures
        any_flux(s.push(x)) == (any_flux(s) || "flux-"@.is_prefix_of(x)),
{
    if any_flux(s) {
        let i = choose|i: int| 0 <= i < s.len() && "flux-"@.is_prefix_of(#[trigger] s[i]);
        assert(s.push(x)[i] == s[i]);
    }
    if "flux-"@.is_prefix_of(x) {
        assert(s.push(x)[s.len() as int] == x);
    }
    if any_flux(s.push(x)) && !"flux-"@.is_prefix_of(x) {
        let i = choose|i: int| 0 <= i < s.push(x).len() && "flux-"@.is_prefix_of(#[trigger] s.push(x)[i]);
        assert(i < s.len());
        assert(s.push(x)[i] == s[i]);
    }
}

proof fn lemma_family_ids_index(ids: Seq<Seq<char>>)
    ensures
        family_ids(ids).len() == ids.len(),
        forall|k: int| 0 <= k < ids.len() ==> #[trigger] family_ids(ids)[k] == family_of(ids[k]),
    decreases ids.len(),
{
    if ids.len() > 0 {
        lemma_family_ids_index(ids.drop_last());
        assert forall|k: int| 0 <= k < ids.len() implies #[trigger] family_ids(ids)[k] == family_of(ids[k]) by {
            if k < ids.len() - 1 {
                assert(family_ids(ids)[k] == family_ids(ids.drop_last())[k]);
                assert(ids.drop_last()[k] == ids[k]);
            }
        }
    }
}

proof fn lemma_family_is_bare(id: Seq<char>)
    ensures
        aura_family(family_of(id)) is None,
{
    reveal_strlit("aura-2-");
    reveal_strlit("aura-1-");
    reveal_strlit("aura-2");
    reveal_strlit("aura-1");
    if aura_family(id) is Some {
        assert(!"aura-2-"@.is_prefix_of("aura-2"@));
        assert(!"aura-1-"@.is_prefix_of("aura-2"@));
        assert(!"aura-2-"@.is_prefix_of("aura-1"@));
        assert(!"aura-1-"@.is_prefix_of("aura-1"@));
    }
}

/// Normalizing leaves no id twice and no per-voice Aura variant: each id is a
/// bare family id.
pub proof fn lemma_normalized_families(ids: Seq<Seq<char>>)
    ensures
        normalized_ids(ids).no_duplicates(),
        forall|i: int|
            0 <= i < normalized_ids(ids).len() ==> aura_family(#[trigger] normalized_ids(ids)[i]) is None,
{
    let f = family_ids(ids);
    let d = dedup(f);
    crate::scope::lemma_dedup_no_duplicates(f);
    lemma_family_ids_index(ids);
    assert forall|i: int| 0 <= i < d.len() implies aura_family(#[trigger] d[i]) is None by {
        assert(d.contains(d[i]));
        assert(f.contains(d[i]));
        let k = choose|k: int| 0 <= k < f.len() && f[k] == d[i];
        lemma_family_is_bare(ids[k]);
    }
    if any_flux(f) && !d.contains("flux"@) {
        let n = d.push("flux"@);
        assert forall|a: int, b: int| 0 <= a < b < n.len() implies n[a] != n[b] by {
            if b == d.len() {
                assert(d.contains(d[a]));
            } else {
                assert(n[a] == d[a] && n[b] == d[b]);
            }
        }
        assert forall|i: int| 0 <= i < n.len() implies aura_family(#[trigger] n[i]) is None by {
            if i == d.len() {
                reveal_strlit("flux");
                reveal_strlit("aura-2-");
                reveal_strlit("aura-1-");
                assert(!"aura-2-"@.is_prefix_of("flux"@));
                assert(!"aura-1-"@.is_prefix_of("flux"@));
            } else {
                assert(n[i] == d[i]);
            }
        }
    }
}

/// The ids rewritten to the family ids that the catalog tracks, without
/// repetition, with the bare `flux` family surfaced from any `flux-*` id.
pub fn normalize_family_ids(ids: &Vec<String>) -> (r: Vec<String>)
    ensures
        views(r@) == normalized_ids(views(ids@)),
{
    let ghost all = views(ids@);
    let mut out: Vec<String> = Vec::new();
    let mut has_flux = false;
    let mut i: usize = 0;
    proof {
        assert(all.take(0) =~= Seq::<Seq<char>>::empty());
        assert(views(out@) =~= Seq::<Seq<char>>::empty());
    }
    while i < ids.len()
        invariant
            i <= ids.len(),
            all == views(ids@),
            views(out@) == dedup(family_ids(all.take(i as int))),
            has_flux == any_flux(family_ids(all.take(i as int))),
        decreases ids.len() - i,
    {
        let f: String = match aura_base_family(ids[i].as_str()) {
            Some(b) => b.to_owned(),
            None => ids[i].clone(),
        };
        proof {
            assert(all.take(i + 1).drop_last() =~= all.take(i as int));
            assert(all.take(i + 1).last() == ids@[i as int]@);
            assert(f@ == family_of(all[i as int]));
            assert(family_ids(all.take(i + 1)) == family_ids(all.take(i as int)).push(f@));
            assert(family_ids(all.take(i as int)).push(f@).drop_last() =~= family_ids(all.take(i as int)));
            lemma_any_flux_push(family_ids(all.take(i as int)), f@);
        }
        if starts_with(f.as_str(), "flux-") {
            has_flux = true;
        }
        if !contains_text(&out, &f) {
            let ghost before = out@;
            out.push(f);
            proof {
                assert(views(out@) =~= views(before).push(f@));
            }
        }
        i = i + 1;
    }
    proof {
        assert(all.take(ids.len() as int) =~= all);
    }
    if has_flux {
        let fl = "flux".to_owned();
        if !contains_text(&out, &fl) {
            let ghost before = out@;
            out.push(fl);
            proof {
                assert(views(out@) =~= views(before).push(fl@));
            }
        }
    }
    out
}

/// The ids of the models, in order.
fn ids_of(ms: &Vec<ScrapedModel>) -> (r: Vec<String>)
    ensures
        r.len() == ms.len(),
        forall|i: int| 0 <= i < ms.len() ==> (#[trigger] r@[i])@ == ms@[i].id@,
{
    let mut out: Vec<String> = Vec::new();
    let mut i: usize = 0;
    while i < ms.len()
        invariant
            i <= ms.len(),
            out.len() == i,
            forall|k: int| 0 <= k < i ==> (#[trigger] out@[k])@ == ms@[k].id@,
        decreases ms.len() - i,
    {
        out.push(ms[i].id.clone());
        i = i + 1;
    }
    out
}

/// Models that carry the given ids and nothing but the provider and source.
fn bare_list(ids: &Vec<String>, provider: &str, url: &str) -> (r: Vec<ScrapedModel>)
    ensures
        bare_models(r@, views(ids@), provider@, url@),
{
    let mut out: Vec<ScrapedModel> = Vec::new();
    let mut i: usize = 0;
    while i < ids.len()
        invariant
            i <= ids.len(),
            out.len() == i,
            forall|k: int| 0 <= k < i ==> bare_model(#[trigger] out@[k], ids@[k]@, provider@, url@),
        decreases ids.len() - i,
    {
        out.push(
            ScrapedModel {
                id: ids[i].clone(),
                provider: provider.to_owned(),
                display_name: None,
                context_window: None,
                max_output_tokens: None,
                input_price: None,
                input_price_candidates: Vec::new(),
                output_price: None,
                source_url: url.to_owned(),
            },
        );
        i = i + 1;
    }
    proof {
        assert forall|k: int| 0 <= k < out.len() implies bare_model(
            #[trigger] out@[k],
            views(ids@)[k],
            provider@,
            url@,
        ) by {
            assert(views(ids@)[k] == ids@[k]@);
        }
    }
    out
}


/// Where `t` first occurs in `s` at or after `i`.
pub open spec fn find_from(s: Seq<char>, t: Seq<char>, i: int) -> Option<int>
    decreases s.len() - i,
{
    if i < 0 || i + t.len() > s.len() {
        None
    } else if s.subrange(i, i + t.len()) == t {
        Some(i)
    } else if i >= s.len() {
        None
    } else {
        find_from(s, t, i + 1)
    }
}

proof fn lemma_find_bounds(s: Seq<char>, t: Seq<char>, j: int)
    ensures
        find_from(s, t, j) matches Some(i) ==> j <= i && i + t.len() <= s.len()
            && s.subrange(i, i + t.len()) == t,
    decreases s.len() - j,
{
    if !(j < 0 || j + t.len() > s.len()) && s.subrange(j, j + t.len()) != t && j < s.len() {
        lemma_find_bounds(s, t, j + 1);
    }
}

/// The character position where `t` first occurs in `s` (`str::find`).
pub fn find_text(s: &str, t: &str) -> (r: Option<usize>)
    ensures
        match find_from(s@, t@, 0) {
            Some(i) => r matches Some(k) && k as int == i,
            None => r is None,
        },
{
    let v = crate::text::to_chars(s);
    let w = crate::text::to_chars(t);
    if w.len() > v.len() {
        return None;
    }
    let mut i: usize = 0;
    while i <= v.len() - w.len()
        invariant
            w.len() <= v.len(),
            i <= v.len() - w.len() + 1,
            v@ == s@,
            w@ == t@,
            find_from(s@, t@, 0) == find_from(s@, t@, i as int),
        decreases v.len() - w.len() + 1 - i,
    {
        let here = crate::text::has_prefix_at(&v, i, &w);
        proof {
            let tail = v@.subrange(i as int, v.len() as int);
            assert(tail.subrange(0, w@.len() as int) =~= v@.subrange(i as int, i + w@.len()));
        }
        if here {
            return Some(i);
        }
        i = i + 1;
    }
    None
}

/// The lowest and highest per-minute rate taken as a price: $0.001 and $0.50.
pub const MIN_PER_MINUTE: Nanos = 1_000_000;

pub const MAX_PER_MINUTE: Nanos = 500_000_000;

/// How many rates a pricing row lists (pay-as-you-go and growth).
pub const TIERS_PER_ROW: usize = 2;

/// How far after the keyword a row's rates are looked for, in characters.
pub const ROW_WINDOW: usize = 700;


/// The number of bytes that `c` takes in UTF-8.
pub open spec fn utf8_width(c: char) -> int {
    if (c as u32) < 0x80 {
        1
    } else if (c as u32) < 0x800 {
        2
    } else if (c as u32) < 0x10000 {
        3
    } else {
        4
    }
}

/// From position `j` of `s`, with `left` bytes still allowed: where the
/// longest run of whole characters that fits ends, and the bytes left over.
pub open spec fn window_end(s: Seq<char>, j: int, left: int) -> (int, int)
    decreases s.len() - j,
{
    if j < 0 || j >= s.len() || utf8_width(s[j]) > left {
        (j, left)
    } else {
        window_end(s, j + 1, left - utf8_width(s[j]))
    }
}

/// The part of the page where the rates of the row described by `keyword`
/// stand: from the keyword on, at most `ROW_WINDOW` bytes of UTF-8.
pub open spec fn row_window(html: Seq<char>, keyword: Seq<char>) -> Option<Seq<char>> {
    match find_from(html, keyword, 0) {
        Some(i) => Some(html.subrange(i, window_end(html, i, ROW_WINDOW as int).0)),
        None => None,
    }
}

/// The window of the row described by `keyword` ends at the end of the page
/// or between two characters: byte `ROW_WINDOW` after the keyword does not
/// fall inside a character.
pub open spec fn row_window_whole(html: Seq<char>, keyword: Seq<char>) -> bool {
    match find_from(html, keyword, 0) {
        Some(i) => {
            let (j, left) = window_end(html, i, ROW_WINDOW as int);
            j == html.len() || left == 0
        },
        None => true,
    }
}

fn char_width(c: char) -> (r: usize)
    ensures
        r == utf8_width(c),
{
    let n = c as u32;
    if n < 0x80 {
        1
    } else if n < 0x800 {
        2
    } else if n < 0x10000 {
        3
    } else {
        4
    }
}

/// Where the window of at most `ROW_WINDOW` bytes that starts at `from` ends.
fn window_stop(v: &Vec<char>, from: usize) -> (r: usize)
    requires
        from <= v.len(),
    ensures
        r as int == window_end(v@, from as int, ROW_WINDOW as int).0,
        window_end(v@, from as int, ROW_WINDOW as int).1 >= 0,
        from <= r <= v.len(),
{
    let mut j = from;
    let mut left: usize = ROW_WINDOW;
    while j < v.len() && char_width(v[j]) <= left
        invariant
            from <= j <= v.len(),
            left <= ROW_WINDOW,
            window_end(v@, from as int, ROW_WINDOW as int) == window_end(v@, j as int, left as int),
        decreases v.len() - j,
    {
        let w = char_width(v[j]);
        left = left - w;
        j = j + 1;
    }
    j
}

/// At most the first `n` elements.
pub open spec fn first_n(s: Seq<int>, n: int) -> Seq<int> {
    if s.len() <= n {
        s
    } else {
        s.take(n)
    }
}

/// The per-minute rates of the row described by `keyword`: the first
/// `TIERS_PER_ROW` amounts in its window followed by `/min` and within the
/// per-minute range.
pub open spec fn row_rates(html: Seq<char>, keyword: Seq<char>) -> Seq<int> {
    match row_window(html, keyword) {
        Some(w) => first_n(
            crate::pricing::all_prices(
                w,
                crate::pricing::any_unit(seq![crate::text::lower_seq("/min"@)]),
                MIN_PER_MINUTE as int,
                MAX_PER_MINUTE as int,
            ),
            TIERS_PER_ROW as int,
        ),
        None => Seq::empty(),
    }
}

pub open spec fn as_ints(v: Seq<Nanos>) -> Seq<int> {
    v.map_values(|x: Nanos| x as int)
}

/// The per-minute rates listed for the row whose description holds `keyword`.
pub fn per_min_rates_after(html: &str, keyword: &str) -> (r: Vec<Nanos>)
    requires
        row_window_whole(html@, keyword@),
    ensures
        as_ints(r@) == row_rates(html@, keyword@),
{
    match find_text(html, keyword) {
        None => {
            let r: Vec<Nanos> = Vec::new();
            proof {
                assert(as_ints(r@) =~= Seq::<int>::empty());
            }
            r
        },
        Some(offset) => {
            proof {
                lemma_find_bounds(html@, keyword@, 0);
            }
            let v = crate::text::to_chars(html);
            let end = window_stop(&v, offset);
            let window = crate::text::string_of_range(&v, offset, end);
            let all = crate::pricing::all_unit_prices(window.as_str(), "/min", MIN_PER_MINUTE, MAX_PER_MINUTE);
            let ghost alli = all@.map_values(|x: Nanos| x as int);
            let mut r: Vec<Nanos> = Vec::new();
            let mut k: usize = 0;
            while k < all.len() && k < TIERS_PER_ROW
                invariant
                    k <= all.len(),
                    k <= TIERS_PER_ROW,
                    alli == all@.map_values(|x: Nanos| x as int),
                    as_ints(r@) == alli.take(k as int),
                decreases TIERS_PER_ROW - k,
            {
                let ghost before = r@;
                r.push(all[k]);
                proof {
                    assert(as_ints(r@) =~= as_ints(before).push(all@[k as int] as int));
                    assert(alli.take(k + 1) =~= alli.take(k as int).push(alli[k as int]));
                }
                k = k + 1;
            }
            proof {
                assert(window@ == html@.subrange(offset as int, window_end(html@, offset as int, ROW_WINDOW as int).0));
                if alli.len() <= TIERS_PER_ROW {
                    assert(alli.take(alli.len() as int) =~= alli);
                }
            }
            r
        },
    }
}


/// The pricing rows the spider reads: the catalog id of each, and a phrase
/// that only that row's description holds.
pub open spec fn deepgram_tiers() -> Seq<(Seq<char>, Seq<char>)> {
    seq![
        ("flux-general-en"@, "turn detection, natural interruption"@),
        ("flux-general-multi"@, "multiple languages within a single conversation"@),
        ("nova-3-general"@, "highest performing model"@),
    ]
}

/// The rows that list at least one rate, with their rates, in order.
pub open spec fn priced_rows(html: Seq<char>, tiers: Seq<(Seq<char>, Seq<char>)>) -> Seq<(Seq<char>, Seq<int>)>
    decreases tiers.len(),
{
    if tiers.len() == 0 {
        Seq::empty()
    } else {
        let p = priced_rows(html, tiers.drop_last());
        let r = row_rates(html, tiers.last().1);
        if r.len() == 0 {
            p
        } else {
            p.push((tiers.last().0, r))
        }
    }
}

/// The model of a priced row: its first rate as the input price, the other
/// rates as further candidates.
pub open spec fn tier_model(m: ScrapedModel, id: Seq<char>, rates: Seq<int>, url: Seq<char>) -> bool {
    &&& m.id@ == id
    &&& m.provider@ == "deepgram"@
    &&& m.display_name is None
    &&& m.context_window is None
    &&& m.max_output_tokens is None
    &&& rates.len() > 0
    &&& m.input_price matches Some(p) && p as int == rates[0]
    &&& as_ints(m.input_price_candidates@) == rates.drop_first()
    &&& m.output_price is None
    &&& m.source_url@ == url
}

/// Every pricing row's window ends at the end of the page or between two
/// characters.
pub open spec fn pricing_windows_whole(html: Seq<char>) -> bool {
    forall|k: int| 0 <= k < deepgram_tiers().len() ==> row_window_whole(html, #[trigger] deepgram_tiers()[k].1)
}

pub open spec fn any_flux_row(rows: Seq<(Seq<char>, Seq<int>)>) -> bool {
    exists|i: int| 0 <= i < rows.len() && "flux-"@.is_prefix_of(#[trigger] rows[i].0)
}

/// What the pricing page yields: one model per priced row, then the bare
/// `flux` family when a `flux-*` row was priced.
pub open spec fn pricing_items_ok(items: Seq<ScrapedModel>, html: Seq<char>, url: Seq<char>) -> bool {
    let rows = priced_rows(html, deepgram_tiers());
    &&& items.len() == rows.len() + (if any_flux_row(rows) { 1int } else { 0int })
    &&& forall|i: int| 0 <= i < rows.len() ==> tier_model(#[trigger] items[i], rows[i].0, rows[i].1, url)
    &&& any_flux_row(rows) ==> bare_model(items[rows.len() as int], "flux"@, "deepgram"@, url)
}

fn tail_of(v: &Vec<Nanos>) -> (r: Vec<Nanos>)
    requires
        v.len() > 0,
    ensures
        r@ == v@.drop_first(),
{
    let mut out: Vec<Nanos> = Vec::new();
    let mut i: usize = 1;
    while i < v.len()
        invariant
            1 <= i <= v.len(),
            out@ == v@.subrange(1, i as int),
        decreases v.len() - i,
    {
        out.push(v[i]);
        proof {
            assert(out@ =~= v@.subrange(1, i + 1));
        }
        i = i + 1;
    }
    proof {
        assert(v@.subrange(1, v.len() as int) =~= v@.drop_first());
    }
    out
}

/// The Deepgram spider.
#[derive(Debug, Clone, Copy)]
pub struct DeepgramSpider;

impl DeepgramSpider {
    pub fn name(&self) -> (r: &'static str)
        ensures
            r@ == "deepgram"@,
    {
        "deepgram"
    }

    /// The documentation page, then the pricing page.
    pub fn start_urls(&self) -> (r: Vec<String>)
        ensures
            views(r@) == seq![
                "https://developers.deepgram.com/docs/models-languages-overview"@,
                "https://deepgram.com/pricing"@,
            ],
    {
        let u: [&str; 2] = [
            "https://developers.deepgram.com/docs/models-languages-overview",
            "https://deepgram.com/pricing",
        ];
        let r = owned_list(&u);
        proof {
            assert(u@.map_values(|s: &str| s@) =~= seq![
                "https://developers.deepgram.com/docs/models-languages-overview"@,
                "https://deepgram.com/pricing"@,
            ]);
        }
        r
    }

    /// The speech model families: ids that start with one of these prefixes.
    pub open spec fn keeps(&self, id: Seq<char>) -> bool {
        starts_with_any(
            seq!["nova-"@, "flux-"@, "base-"@, "enhanced-"@, "whisper-"@, "aura-"@],
            id,
        )
    }

    /// The documentation page: the kept ids, rewritten to their families.
    pub fn scrape_docs(&self, res: &HtmlResponse, page: &PageParts) -> (r: SpiderOutput)
        ensures
            r.follow_urls@.len() == 0,
            bare_models(
                r.items@,
                normalized_ids(page_ids(*page).filter(|i: Seq<char>| self.keeps(i))),
                "deepgram"@,
                res.url@,
            ),
    {
        let ps: [&str; 6] = ["nova-", "flux-", "base-", "enhanced-", "whisper-", "aura-"];
        let rule = prefix_rule(&ps);
        proof {
            assert(ps@.map_values(|s: &str| s@) =~= seq!["nova-"@, "flux-"@, "base-"@, "enhanced-"@, "whisper-"@, "aura-"@]);
        }
        let kept = keep_page_models(page, "deepgram", res.url, &rule);
        let ids = ids_of(&kept);
        proof {
            assert((|i: Seq<char>| rule_keeps(rule, i)) =~= (|i: Seq<char>| self.keeps(i)));
            let want = page_ids(*page).filter(|i: Seq<char>| self.keeps(i));
            assert(views(ids@) =~= want);
        }
        let norm = normalize_family_ids(&ids);
        let items = bare_list(&norm, "deepgram", res.url);
        SpiderOutput::new().items(items)
    }

    /// The pricing page: the rates of each known row, and the bare `flux`
    /// family when a Flux row is priced.
    pub fn scrape_pricing(&self, res: &HtmlResponse) -> (r: SpiderOutput)
        requires
            pricing_windows_whole(res.body@),
        ensures
            r.follow_urls@.len() == 0,
            pricing_items_ok(r.items@, res.body@, res.url@),
    {
        let tiers: [(&str, &str); 3] = [
            ("flux-general-en", "turn detection, natural interruption"),
            ("flux-general-multi", "multiple languages within a single conversation"),
            ("nova-3-general", "highest performing model"),
        ];
        let ghost all = deepgram_tiers();
        proof {
            assert(tiers@.map_values(|p: (&str, &str)| (p.0@, p.1@)) =~= all);
        }
        let mut items: Vec<ScrapedModel> = Vec::new();
        let mut k: usize = 0;
        while k < 3
            invariant
                k <= 3,
                all == deepgram_tiers(),
                pricing_windows_whole(res.body@),
                tiers@.map_values(|p: (&str, &str)| (p.0@, p.1@)) == all,
                items.len() == priced_rows(res.body@, all.take(k as int)).len(),
                forall|i: int|
                    0 <= i < items.len() ==> tier_model(
                        #[trigger] items@[i],
                        priced_rows(res.body@, all.take(k as int))[i].0,
                        priced_rows(res.body@, all.take(k as int))[i].1,
                        res.url@,
                    ),
            decreases 3 - k,
        {
            let (id, keyword) = tiers[k];
            proof {
                assert(all[k as int] == (id@, keyword@));
                assert(all.take(k + 1).drop_last() =~= all.take(k as int));
                assert(all.take(k + 1).last() == all[k as int]);
            }
            proof {
                assert(row_window_whole(res.body@, all[k as int].1));
            }
            let rates = per_min_rates_after(res.body, keyword);
            if rates.len() > 0 {
                let primary = rates[0];
                let rest = tail_of(&rates);
                let ghost before = items@;
                items.push(
                    ScrapedModel {
                        id: id.to_owned(),
                        provider: "deepgram".to_owned(),
                        display_name: None,
                        context_window: None,
                        max_output_tokens: None,
                        input_price: Some(primary),
                        input_price_candidates: rest,
                        output_price: None,
                        source_url: res.url.to_owned(),
                    },
                );
                proof {
                    assert(as_ints(rates@)[0] == primary as int);
                    assert(as_ints(rest@) =~= as_ints(rates@).drop_first());
                    let rows = priced_rows(res.body@, all.take(k + 1));
                    assert(rows == priced_rows(res.body@, all.take(k as int)).push((id@, row_rates(res.body@, keyword@))));
                    assert forall|i: int| 0 <= i < items.len() implies tier_model(
                        #[trigger] items@[i],
                        rows[i].0,
                        rows[i].1,
                        res.url@,
                    ) by {
                        if i < before.len() {
                            assert(items@[i] == before[i]);
                        }
                    }
                }
            } else {
                proof {
                    assert(as_ints(rates@).len() == 0);
                }
            }
            k = k + 1;
        }
        proof {
            assert(all.take(3) =~= all);
        }
        let ghost rows = priced_rows(res.body@, all);
        let mut has_flux = false;
        let mut j: usize = 0;
        while j < items.len()
            invariant
                j <= items.len(),
                rows == priced_rows(res.body@, deepgram_tiers()),
                items.len() == rows.len(),
                forall|i: int| 0 <= i < items.len() ==> (#[trigger] items@[i]).id@ == rows[i].0,
                has_flux == exists|i: int| 0 <= i < j && "flux-"@.is_prefix_of(#[trigger] rows[i].0),
            decreases items.len() - j,
        {
            if starts_with(items[j].id.as_str(), "flux-") {
                has_flux = true;
            }
            proof {
                assert(items@[j as int].id@ == rows[j as int].0);
            }
            j = j + 1;
        }
        if has_flux {
            let ghost before = items@;
            items.push(
                ScrapedModel {
                    id: "flux".to_owned(),
                    provider: "deepgram".to_owned(),
                    display_name: None,
                    context_window: None,
                    max_output_tokens: None,
                    input_price: None,
                    input_price_candidates: Vec::new(),
                    output_price: None,
                    source_url: res.url.to_owned(),
                },
            );
            proof {
                assert forall|i: int| 0 <= i < rows.len() implies tier_model(
                    #[trigger] items@[i],
                    rows[i].0,
                    rows[i].1,
                    res.url@,
                ) by {
                    assert(items@[i] == before[i]);
                }
            }
        }
        SpiderOutput::new().items(items)
    }

    /// The pricing page when its URL mentions `pricing`, else the
    /// documentation page.
    pub fn scrape(&self, res: &HtmlResponse, page: &PageParts) -> (r: SpiderOutput)
        requires
            crate::text::has_substring(res.url@, "pricing"@) ==> pricing_windows_whole(res.body@),
        ensures
            r.follow_urls@.len() == 0,
            crate::text::has_substring(res.url@, "pricing"@) ==> pricing_items_ok(
                r.items@,
                res.body@,
                res.url@,
            ),
            !crate::text::has_substring(res.url@, "pricing"@) ==> bare_models(
                r.items@,
                normalized_ids(page_ids(*page).filter(|i: Seq<char>| self.keeps(i))),
                "deepgram"@,
                res.url@,
            ),
    {
        if crate::text::contains_str(res.url, "pricing") {
            self.scrape_pricing(res)
        } else {
            self.scrape_docs(res, page)
        }
    }
}

} // verus!
