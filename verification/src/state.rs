//! The loaded catalog that the API answers from, its entity tag and the
//! lookups by id.
use vstd::prelude::*;
use vstd::string::StringExecFns;
use crate::catalog::{Model, Provider};
use crate::digest::{hex_encode, hex_text, sha256, sha256_of};
use crate::stats::{CatalogStats, compute_stats, input_keys, output_keys};

verus! {

/// The catalog as served: providers, models and aliases (alias, canonical
/// model id) after scoping, with the entity tag of the content.
pub struct AppState {
    pub providers: Vec<Provider>,
    pub models: Vec<Model>,
    pub aliases: Vec<(String, String)>,
    pub etag: String,
    pub stats: CatalogStats,
}

/// The entity tag of a catalog whose providers and models serialise to the
/// given bytes: the hex SHA-256 of both, in double quotes.
pub open spec fn etag_of(providers_json: Seq<u8>, models_json: Seq<u8>) -> Seq<char> {
    seq!['"'] + hex_text(sha256_of(providers_json + models_json)) + seq!['"']
}

/// The index of the last element for which `p` holds.
pub open spec fn last_where<A>(s: Seq<A>, p: spec_fn(A) -> bool) -> Option<int>
    decreases s.len(),
{
    if s.len() == 0 {
        None
    } else if p(s.last()) {
        Some(s.len() - 1)
    } else {
        last_where(s.drop_last(), p)
    }
}

/// The index of the first element for which `p` holds.
pub open spec fn first_where<A>(s: Seq<A>, p: spec_fn(A) -> bool) -> Option<int>
    decreases s.len(),
{
    if s.len() == 0 {
        None
    } else if p(s[0]) {
        Some(0)
    } else {
        match first_where(s.drop_first(), p) {
            Some(i) => Some(i + 1),
            None => None,
        }
    }
}

pub open spec fn has_id(id: Seq<char>) -> spec_fn(Model) -> bool {
    |m: Model| m.id@ == id
}

pub open spec fn has_ref(provider: Seq<char>, id: Seq<char>) -> spec_fn(Model) -> bool {
    |m: Model| m.provider@ == provider && m.id@ == id
}

pub open spec fn provider_has_id(id: Seq<char>) -> spec_fn(Provider) -> bool {
    |p: Provider| p.id@ == id
}

pub open spec fn alias_named(alias: Seq<char>) -> spec_fn((String, String)) -> bool {
    |a: (String, String)| a.0@ == alias
}

proof fn lemma_last_where_prefix<A>(s: Seq<A>, p: spec_fn(A) -> bool, k: int)
    requires
        0 <= k < s.len(),
        forall|j: int| k < j < s.len() ==> !p(#[trigger] s[j]),
    ensures
        last_where(s, p) == last_where(s.take(k + 1), p),
    decreases s.len() - k,
{
    if k + 1 < s.len() {
        assert(s.drop_last().take(k + 1) =~= s.take(k + 1));
        lemma_last_where_prefix(s.drop_last(), p, k);
    } else {
        assert(s.take(k + 1) =~= s);
    }
}

proof fn lemma_last_where_none<A>(s: Seq<A>, p: spec_fn(A) -> bool)
    requires
        forall|j: int| 0 <= j < s.len() ==> !p(#[trigger] s[j]),
    ensures
        last_where(s, p) is None,
    decreases s.len(),
{
    if s.len() > 0 {
        lemma_last_where_none(s.drop_last(), p);
    }
}

proof fn lemma_first_where_found<A>(s: Seq<A>, p: spec_fn(A) -> bool, k: int)
    requires
        0 <= k < s.len(),
        p(s[k]),
        forall|j: int| 0 <= j < k ==> !p(#[trigger] s[j]),
    ensures
        first_where(s, p) == Some(k),
    decreases k,
{
    if k > 0 {
        lemma_first_where_found(s.drop_first(), p, k - 1);
    }
}

proof fn lemma_first_where_none<A>(s: Seq<A>, p: spec_fn(A) -> bool)
    requires
        forall|j: int| 0 <= j < s.len() ==> !p(#[trigger] s[j]),
    ensures
        first_where(s, p) is None,
    decreases s.len(),
{
    if s.len() > 0 {
        lemma_first_where_none(s.drop_first(), p);
    }
}

/// The index of the last model with this id.
pub fn model_index(models: &Vec<Model>, id: &str) -> (r: Option<usize>)
    ensures
        r matches Some(i) ==> i < models.len() && last_where(models@, has_id(id@)) == Some(i as int),
        r is None ==> last_where(models@, has_id(id@)) is None,
{
    let key = id.to_owned();
    let mut i: usize = models.len();
    while i > 0
        invariant
            i <= models.len(),
            key@ == id@,
            forall|j: int| i <= j < models.len() ==> !has_id(id@)(#[trigger] models@[j]),
        decreases i,
    {
        if models[i - 1].id == key {
            proof {
                lemma_last_where_prefix(models@, has_id(id@), i - 1);
                assert(models@.take(i as int).last() == models@[i - 1]);
            }
            return Some(i - 1);
        }
        i = i - 1;
    }
    proof {
        lemma_last_where_none(models@, has_id(id@));
    }
    None
}

/// The index of the last model with this provider and id.
pub fn model_ref_index(models: &Vec<Model>, provider: &str, id: &str) -> (r: Option<usize>)
    ensures
        r matches Some(i) ==> i < models.len() && last_where(models@, has_ref(provider@, id@)) == Some(i as int),
        r is None ==> last_where(models@, has_ref(provider@, id@)) is None,
{
    let pkey = provider.to_owned();
    let key = id.to_owned();
    let mut i: usize = models.len();
    while i > 0
        invariant
            i <= models.len(),
            key@ == id@,
            pkey@ == provider@,
            forall|j: int|
                i <= j < models.len() ==> !has_ref(provider@, id@)(#[trigger] models@[j]),
        decreases i,
    {
        if models[i - 1].provider == pkey && models[i - 1].id == key {
            proof {
                lemma_last_where_prefix(models@, has_ref(provider@, id@), i - 1);
                assert(models@.take(i as int).last() == models@[i - 1]);
            }
            return Some(i - 1);
        }
        i = i - 1;
    }
    proof {
        lemma_last_where_none(models@, has_ref(provider@, id@));
    }
    None
}

/// The index of the first model with this provider and id.
pub fn first_model_index(models: &Vec<Model>, provider: &str, id: &str) -> (r: Option<usize>)
    ensures
        r matches Some(i) ==> i < models.len() && first_where(models@, has_ref(provider@, id@)) == Some(i as int),
        r is None ==> first_where(models@, has_ref(provider@, id@)) is None,
{
    let pkey = provider.to_owned();
    let key = id.to_owned();
    let mut i: usize = 0;
    while i < models.len()
        invariant
            i <= models.len(),
            key@ == id@,
            pkey@ == provider@,
            forall|j: int| 0 <= j < i ==> !has_ref(provider@, id@)(#[trigger] models@[j]),
        decreases models.len() - i,
    {
        if models[i].provider == pkey && models[i].id == key {
            proof {
                lemma_first_where_found(models@, has_ref(provider@, id@), i as int);
            }
            return Some(i);
        }
        i = i + 1;
    }
    proof {
        lemma_first_where_none(models@, has_ref(provider@, id@));
    }
    None
}

/// The index of the first provider with this id.
pub fn provider_index(providers: &Vec<Provider>, id: &str) -> (r: Option<usize>)
    ensures
        r matches Some(i) ==> i < providers.len() && first_where(providers@, provider_has_id(id@)) == Some(i as int),
        r is None ==> first_where(providers@, provider_has_id(id@)) is None,
{
    let key = id.to_owned();
    let mut i: usize = 0;
    while i < providers.len()
        invariant
            i <= providers.len(),
            key@ == id@,
            forall|j: int| 0 <= j < i ==> !provider_has_id(id@)(#[trigger] providers@[j]),
        decreases providers.len() - i,
    {
        if providers[i].id == key {
            proof {
                lemma_first_where_found(providers@, provider_has_id(id@), i as int);
            }
            return Some(i);
        }
        i = i + 1;
    }
    proof {
        lemma_first_where_none(providers@, provider_has_id(id@));
    }
    None
}

/// The index of the first alias entry with this name.
pub fn alias_index(aliases: &Vec<(String, String)>, alias: &str) -> (r: Option<usize>)
    ensures
        r matches Some(i) ==> i < aliases.len() && first_where(aliases@, alias_named(alias@)) == Some(i as int),
        r is None ==> first_where(aliases@, alias_named(alias@)) is None,
{
    let key = alias.to_owned();
    let mut i: usize = 0;
    while i < aliases.len()
        invariant
            i <= aliases.len(),
            key@ == alias@,
            forall|j: int| 0 <= j < i ==> !alias_named(alias@)(#[trigger] aliases@[j]),
        decreases aliases.len() - i,
    {
        if aliases[i].0 == key {
            proof {
                lemma_first_where_found(aliases@, alias_named(alias@), i as int);
            }
            return Some(i);
        }
        i = i + 1;
    }
    proof {
        lemma_first_where_none(aliases@, alias_named(alias@));
    }
    None
}

/// The entity tag of the serialised providers and models.
pub fn catalog_etag(providers_json: &[u8], models_json: &[u8]) -> (r: String)
    ensures
        r@ == etag_of(providers_json@, models_json@),
{
    let mut bytes: Vec<u8> = Vec::new();
    let mut i: usize = 0;
    while i < providers_json.len()
        invariant
            i <= providers_json.len(),
            bytes@ == providers_json@.take(i as int),
        decreases providers_json.len() - i,
    {
        bytes.push(providers_json[i]);
        proof {
            assert(providers_json@.take(i + 1) =~= providers_json@.take(i as int).push(
                providers_json@[i as int],
            ));
        }
        i = i + 1;
    }
    let mut j: usize = 0;
    while j < models_json.len()
        invariant
            j <= models_json.len(),
            bytes@ == providers_json@ + models_json@.take(j as int),
        decreases models_json.len() - j,
    {
        bytes.push(models_json[j]);
        proof {
            assert(providers_json@ + models_json@.take(j + 1) =~= (providers_json@
                + models_json@.take(j as int)).push(models_json@[j as int]));
        }
        j = j + 1;
    }
    proof {
        assert(providers_json@.take(providers_json.len() as int) =~= providers_json@);
        assert(models_json@.take(models_json.len() as int) =~= models_json@);
    }
    let digest = sha256(bytes.as_slice());
    let hex = hex_encode(digest.as_slice());
    let quote = String::from_str("\"");
    proof {
        reveal_strlit("\"");
    }
    let tagged = quote.concat(hex.as_str());
    tagged.concat("\"")
}

/// The served catalog made of scoped providers, models and aliases, with the
/// serialised providers and models for its entity tag and the formatted
/// time of loading.
pub fn build_state(
    providers: Vec<Provider>,
    models: Vec<Model>,
    aliases: Vec<(String, String)>,
    providers_json: &[u8],
    models_json: &[u8],
    loaded_at: String,
) -> (r: AppState)
    requires
        input_keys(models@).len() < usize::MAX,
        output_keys(models@).len() < usize::MAX,
    ensures
        r.providers@ == providers@,
        r.models@ == models@,
        r.aliases@ == aliases@,
        r.etag@ == etag_of(providers_json@, models_json@),
        r.stats.total_models == models.len(),
        r.stats.total_providers == providers.len(),
        r.stats.last_updated@ == loaded_at@,
{
    let etag = catalog_etag(providers_json, models_json);
    let stats = compute_stats(&models, &providers, loaded_at);
    AppState { providers, models, aliases, etag, stats }
}

} // verus!
