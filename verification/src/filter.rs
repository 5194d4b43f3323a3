//! Query filters over the model list, the sort orders that listings offer,
//! and the page window of a paginated listing.
use vstd::prelude::*;
use crate::catalog::{Model, Nanos, status_name};
use crate::sorting::{KeyPart, PartV, key_view};
use crate::text::{split, split_seq, trim, trim_seq, views};

verus! {

/// The query parameters of a model listing. Blank texts count as absent.
#[derive(Debug)]
pub struct ModelFilter {
    pub provider: Option<String>,
    pub status: Option<String>,
    /// Comma-separated capability names that must all be `true`.
    pub capability: Option<String>,
    pub limit: Option<usize>,
    pub offset: Option<usize>,
    pub sort: Option<String>,
    pub order: Option<String>,
    /// Comma-separated input modalities that must all be supported.
    pub modality_input: Option<String>,
    /// Comma-separated output modalities that must all be supported.
    pub modality_output: Option<String>,
    pub min_context: Option<u64>,
    pub max_input_price: Option<Nanos>,
}

/// The trimmed text, unless it is blank or absent.
pub open spec fn non_empty_spec(v: Option<String>) -> Option<Seq<char>> {
    match v {
        Some(s) => if trim_seq(s@).len() > 0 {
            Some(trim_seq(s@))
        } else {
            None
        },
        None => None,
    }
}

/// The value of the first capability flag with this name.
pub open spec fn capability_of(caps: Seq<(String, bool)>, name: Seq<char>) -> Option<bool>
    decreases caps.len(),
{
    if caps.len() == 0 {
        None
    } else if caps[0].0@ == name {
        Some(caps[0].1)
    } else {
        capability_of(caps.drop_first(), name)
    }
}

/// Every comma-separated piece, trimmed, names a capability that is `true`.
pub open spec fn has_capabilities(m: Model, list: Seq<char>) -> bool {
    forall|k: int|
        0 <= k < split_seq(list, ',').len() ==> capability_of(
            m.capabilities@,
            trim_seq(#[trigger] split_seq(list, ',')[k]),
        ) == Some(true)
}

/// Every comma-separated piece, trimmed, is one of the supported modalities.
pub open spec fn has_modalities(supported: Seq<String>, list: Seq<char>) -> bool {
    forall|k: int|
        0 <= k < split_seq(list, ',').len() ==> views(supported).contains(
            trim_seq(#[trigger] split_seq(list, ',')[k]),
        )
}

/// The input price used for the price filter; an unpriced model counts as
/// priced at the largest value.
pub open spec fn filter_price(m: Model) -> int {
    match m.pricing {
        Some(p) => p.input as int,
        None => i64::MAX as int,
    }
}

/// Whether the model passes every filter that is present.
pub open spec fn matches_filter(m: Model, f: ModelFilter) -> bool {
    &&& non_empty_spec(f.provider) matches Some(p) ==> m.provider@ == p
    &&& non_empty_spec(f.status) matches Some(s) ==> status_name(m.status) == s
    &&& non_empty_spec(f.capability) matches Some(c) ==> has_capabilities(m, c)
    &&& non_empty_spec(f.modality_input) matches Some(l) ==> has_modalities(m.modalities.input@, l)
    &&& non_empty_spec(f.modality_output) matches Some(l) ==> has_modalities(m.modalities.output@, l)
    &&& f.min_context matches Some(c) ==> m.context_window >= c
    &&& f.max_input_price matches Some(p) ==> filter_price(m) <= p
}

/// The positions of the models that pass the filter, in catalog order.
pub open spec fn matching(ms: Seq<Model>, f: ModelFilter) -> Seq<int>
    decreases ms.len(),
{
    if ms.len() == 0 {
        Seq::empty()
    } else {
        let p = matching(ms.drop_last(), f);
        if matches_filter(ms.last(), f) {
            p.push(ms.len() - 1)
        } else {
            p
        }
    }
}

/// The sort key of a model: by the named field, by provider when no field is
/// named, and by provider then id for an unknown name.
pub open spec fn model_sort_key(m: Model, sort: Option<Seq<char>>) -> Seq<PartV> {
    let s = match sort {
        Some(s) => s,
        None => "provider"@,
    };
    if s == "context_window"@ {
        seq![(false, m.context_window as int, Seq::<char>::empty())]
    } else if s == "max_output_tokens"@ {
        seq![(false, m.max_output_tokens as int, Seq::<char>::empty())]
    } else if s == "status"@ {
        seq![(true, 0int, status_name(m.status))]
    } else if s == "id"@ {
        seq![(true, 0int, m.id@)]
    } else if s == "provider"@ {
        seq![(true, 0int, m.provider@)]
    } else {
        seq![(true, 0int, m.provider@), (true, 0int, m.id@)]
    }
}

/// The sort keys of the models at the given positions.
pub open spec fn sort_keys(ms: Seq<Model>, idx: Seq<int>, sort: Option<Seq<char>>) -> Seq<Seq<PartV>> {
    idx.map_values(|i: int| model_sort_key(ms[i], sort))
}

/// Whether the listing is in descending order: only for the order `desc`.
pub open spec fn descending(f: ModelFilter) -> bool {
    non_empty_spec(f.order) == Some("desc"@)
}

/// The offset of a page: the requested offset, at most the total.
pub open spec fn page_offset(total: int, offset: Option<usize>) -> int {
    let o = match offset {
        Some(o) => o as int,
        None => 0,
    };
    if o < total {
        o
    } else {
        total
    }
}

/// The requested limit when it is positive, else the default.
pub open spec fn requested_limit(limit: Option<usize>, default: int) -> int {
    match limit {
        Some(l) => if l > 0 {
            l as int
        } else {
            default
        },
        None => default,
    }
}

/// How many entries a model page holds: the requested limit, at most what
/// remains after the offset.
pub open spec fn page_size(total: int, offset: Option<usize>, limit: Option<usize>, default: int) -> int {
    let l = requested_limit(limit, default);
    let rest = total - page_offset(total, offset);
    if l < rest {
        l
    } else {
        rest
    }
}

/// The trimmed text, unless it is blank or absent.
pub fn non_empty(v: &Option<String>) -> (r: Option<String>)
    ensures
        match r {
            Some(s) => non_empty_spec(*v) == Some(s@),
            None => non_empty_spec(*v) is None,
        },
{
    match v {
        Some(s) => {
            let t = trim(s.as_str());
            if t.as_str().is_empty() {
                None
            } else {
                Some(t)
            }
        },
        None => None,
    }
}

/// The value of the first capability flag with this name.
pub fn capability_value(caps: &Vec<(String, bool)>, name: &String) -> (r: Option<bool>)
    ensures
        r == capability_of(caps@, name@),
{
    let mut i: usize = 0;
    proof {
        assert(caps@.skip(0) =~= caps@);
    }
    while i < caps.len()
        invariant
            i <= caps.len(),
            capability_of(caps@, name@) == capability_of(caps@.skip(i as int), name@),
        decreases caps.len() - i,
    {
        proof {
            assert(caps@.skip(i as int)[0] == caps@[i as int]);
            assert(caps@.skip(i as int).drop_first() =~= caps@.skip(i + 1));
        }
        if caps[i].0 == *name {
            return Some(caps[i].1);
        }
        i = i + 1;
    }
    proof {
        assert(caps@.skip(i as int).len() == 0);
    }
    None
}

fn has_all_capabilities(m: &Model, list: &String) -> (r: bool)
    ensures
        r == has_capabilities(*m, list@),
{
    let pieces = split(list.as_str(), ',');
    let ghost ps = split_seq(list@, ',');
    let mut k: usize = 0;
    while k < pieces.len()
        invariant
            k <= pieces.len(),
            views(pieces@) == ps,
            ps == split_seq(list@, ','),
            forall|j: int|
                0 <= j < k ==> capability_of(m.capabilities@, trim_seq(#[trigger] ps[j])) == Some(true),
        decreases pieces.len() - k,
    {
        let name = trim(pieces[k].as_str());
        proof {
            assert(ps[k as int] == pieces@[k as int]@);
        }
        if capability_value(&m.capabilities, &name) != Some(true) {
            return false;
        }
        k = k + 1;
    }
    true
}

fn supports_all(supported: &Vec<String>, list: &String) -> (r: bool)
    ensures
        r == has_modalities(supported@, list@),
{
    let pieces = split(list.as_str(), ',');
    let ghost ps = split_seq(list@, ',');
    let mut k: usize = 0;
    while k < pieces.len()
        invariant
            k <= pieces.len(),
            views(pieces@) == ps,
            ps == split_seq(list@, ','),
            forall|j: int| 0 <= j < k ==> views(supported@).contains(trim_seq(#[trigger] ps[j])),
        decreases pieces.len() - k,
    {
        let name = trim(pieces[k].as_str());
        proof {
            assert(ps[k as int] == pieces@[k as int]@);
        }
        if !crate::scope::contains_text(supported, &name) {
            return false;
        }
        k = k + 1;
    }
    true
}

/// Whether the model passes every filter that is present.
pub fn model_matches_filter(m: &Model, f: &ModelFilter) -> (r: bool)
    ensures
        r == matches_filter(*m, *f),
{
    match non_empty(&f.provider) {
        Some(p) => if m.provider != p {
            return false;
        },
        None => {},
    }
    match non_empty(&f.status) {
        Some(s) => if m.status.as_str().to_owned() != s {
            return false;
        },
        None => {},
    }
    match non_empty(&f.capability) {
        Some(c) => if !has_all_capabilities(m, &c) {
            return false;
        },
        None => {},
    }
    match non_empty(&f.modality_input) {
        Some(l) => if !supports_all(&m.modalities.input, &l) {
            return false;
        },
        None => {},
    }
    match non_empty(&f.modality_output) {
        Some(l) => if !supports_all(&m.modalities.output, &l) {
            return false;
        },
        None => {},
    }
    match f.min_context {
        Some(c) => if m.context_window < c {
            return false;
        },
        None => {},
    }
    match f.max_input_price {
        Some(max) => {
            let price = match &m.pricing {
                Some(p) => p.input,
                None => i64::MAX,
            };
            if price > max {
                return false;
            }
        },
        None => {},
    }
    true
}

/// The sort key of a model for the named sort.
pub fn sort_key(m: &Model, sort: &Option<String>) -> (r: Vec<KeyPart>)
    ensures
        key_view(r@) == model_sort_key(*m, opt_view(*sort)),
{
    let s = match sort {
        Some(s) => s.clone(),
        None => "provider".to_owned(),
    };
    let r = if s == "context_window".to_owned() {
        vec![KeyPart::Num(m.context_window)]
    } else if s == "max_output_tokens".to_owned() {
        vec![KeyPart::Num(m.max_output_tokens)]
    } else if s == "status".to_owned() {
        vec![KeyPart::Text(m.status.as_str().to_owned())]
    } else if s == "id".to_owned() {
        vec![KeyPart::Text(m.id.clone())]
    } else if s == "provider".to_owned() {
        vec![KeyPart::Text(m.provider.clone())]
    } else {
        vec![KeyPart::Text(m.provider.clone()), KeyPart::Text(m.id.clone())]
    };
    proof {
        assert(key_view(r@) =~= model_sort_key(*m, opt_view(*sort)));
    }
    r
}

pub open spec fn opt_view(v: Option<String>) -> Option<Seq<char>> {
    match v {
        Some(s) => Some(s@),
        None => None,
    }
}

/// Whether the listing is in descending order.
pub fn is_descending(f: &ModelFilter) -> (r: bool)
    ensures
        r == descending(*f),
{
    match non_empty(&f.order) {
        Some(o) => o == "desc".to_owned(),
        None => false,
    }
}

/// The offset of a page of `total` entries, how many entries it holds (the
/// requested limit capped by what remains), and the requested limit.
pub fn page_window(total: usize, offset: Option<usize>, limit: Option<usize>, default: usize) -> (r: (usize, usize, usize))
    ensures
        r.0 == page_offset(total as int, offset),
        r.1 == page_size(total as int, offset, limit, default as int),
        r.2 == requested_limit(limit, default as int),
{
    let o = match offset {
        Some(o) => o,
        None => 0,
    };
    let off = if o < total {
        o
    } else {
        total
    };
    let l = match limit {
        Some(l) => if l > 0 {
            l
        } else {
            default
        },
        None => default,
    };
    let rest = total - off;
    let lim = if l < rest {
        l
    } else {
        rest
    };
    (off, lim, l)
}

} // verus!
