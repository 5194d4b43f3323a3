//! Conditional catalog reads: a request whose `If-None-Match` names the
//! catalog's current tag is answered "not modified", and a lookup of a key
//! the catalog lacks is answered with its not-found error first.
use vstd::prelude::*;
use crate::error::ApiError;
use crate::queries::{AliasMapping, get_alias, get_model, get_provider, mapping_of, mapping_view};
use crate::state::{AppState, alias_named, first_where, has_ref, provider_has_id};
use crate::html::opt_view;

verus! {

/// The catalog has not changed for a client that sent this `If-None-Match`
/// value: the value is exactly the catalog's tag.
pub open spec fn unchanged(if_none_match: Option<Seq<char>>, etag: Seq<char>) -> bool {
    if_none_match == Some(etag)
}

/// Whether a read may be answered "not modified".
pub fn not_modified(if_none_match: &Option<String>, etag: &String) -> (r: bool)
    ensures
        r == unchanged(opt_view(*if_none_match), etag@),
{
    match if_none_match {
        Some(v) => *v == *etag,
        None => false,
    }
}

/// The answer to a lookup of a key the catalog holds.
#[derive(Debug)]
pub enum Lookup<T> {
    /// The client's copy is current.
    NotModified,
    /// The value to send.
    Found(T),
}

/// `GET /models/{provider}/{id}`: the model not found error when no model has
/// this provider and id; else "not modified" when the client's tag is the
/// catalog's; else the position of the first such model.
pub fn model_lookup(state: &AppState, provider: &String, id: &String, if_none_match: &Option<String>) -> (r: Result<
    Lookup<usize>,
    ApiError,
>)
    ensures
        match first_where(state.models@, has_ref(provider@, id@)) {
            None => r matches Err(ApiError::ModelNotFound { provider: p, id: i }) && p@ == provider@ && i@ == id@,
            Some(k) => if unchanged(opt_view(*if_none_match), state.etag@) {
                r matches Ok(Lookup::NotModified)
            } else {
                r matches Ok(Lookup::Found(i)) && i as int == k
            },
        },
{
    match get_model(state, provider.as_str(), id.as_str()) {
        None => Err(ApiError::ModelNotFound { provider: provider.clone(), id: id.clone() }),
        Some(i) => if not_modified(if_none_match, &state.etag) {
            Ok(Lookup::NotModified)
        } else {
            Ok(Lookup::Found(i))
        },
    }
}

/// `GET /providers/{id}`: the provider not found error when no provider has
/// this id; else "not modified" when the client's tag is the catalog's; else
/// the position of the first such provider.
pub fn provider_lookup(state: &AppState, id: &String, if_none_match: &Option<String>) -> (r: Result<Lookup<usize>, ApiError>)
    ensures
        match first_where(state.providers@, provider_has_id(id@)) {
            None => r matches Err(ApiError::ProviderNotFound { provider: p }) && p@ == id@,
            Some(k) => if unchanged(opt_view(*if_none_match), state.etag@) {
                r matches Ok(Lookup::NotModified)
            } else {
                r matches Ok(Lookup::Found(i)) && i as int == k
            },
        },
{
    match get_provider(state, id.as_str()) {
        None => Err(ApiError::ProviderNotFound { provider: id.clone() }),
        Some(i) => if not_modified(if_none_match, &state.etag) {
            Ok(Lookup::NotModified)
        } else {
            Ok(Lookup::Found(i))
        },
    }
}

/// `GET /aliases/{alias}`: the alias not found error when the catalog has no
/// such alias; else "not modified" when the client's tag is the catalog's;
/// else the alias with its canonical id and provider.
pub fn alias_lookup(state: &AppState, alias: &String, if_none_match: &Option<String>) -> (r: Result<
    Lookup<AliasMapping>,
    ApiError,
>)
    ensures
        match first_where(state.aliases@, alias_named(alias@)) {
            None => r matches Err(ApiError::AliasNotFound { alias: a }) && a@ == alias@,
            Some(k) => if unchanged(opt_view(*if_none_match), state.etag@) {
                r matches Ok(Lookup::NotModified)
            } else {
                r matches Ok(Lookup::Found(m)) && mapping_view(m) == mapping_of(
                    state.models@,
                    state.aliases@[k].0@,
                    state.aliases@[k].1@,
                )
            },
        },
{
    match get_alias(state, alias.as_str()) {
        None => Err(ApiError::AliasNotFound { alias: alias.clone() }),
        Some(m) => if not_modified(if_none_match, &state.etag) {
            Ok(Lookup::NotModified)
        } else {
            Ok(Lookup::Found(m))
        },
    }
}

} // verus!
