//! The errors that the API answers with: an HTTP status, a machine-readable
//! code, a message and, for lookups, the key that was not found.
use vstd::prelude::*;

verus! {

#[derive(Debug)]
pub enum ApiError {
    ModelNotFound { provider: String, id: String },
    ProviderNotFound { provider: String },
    AliasNotFound { alias: String },
    BadRequest { message: String },
    NotFound { message: String },
    /// A failure of the server itself; the text is for the log only.
    Internal { detail: String },
}

/// The view of an error: its kind (in the order of the variants) and the
/// texts it carries.
pub open spec fn error_view(e: ApiError) -> (int, Seq<char>, Seq<char>) {
    match e {
        ApiError::ModelNotFound { provider, id } => (0, provider@, id@),
        ApiError::ProviderNotFound { provider } => (1, provider@, Seq::empty()),
        ApiError::AliasNotFound { alias } => (2, alias@, Seq::empty()),
        ApiError::BadRequest { message } => (3, message@, Seq::empty()),
        ApiError::NotFound { message } => (4, message@, Seq::empty()),
        ApiError::Internal { detail } => (5, detail@, Seq::empty()),
    }
}

pub open spec fn status_of(e: ApiError) -> u16 {
    match e {
        ApiError::BadRequest { .. } => 400,
        ApiError::Internal { .. } => 500,
        _ => 404,
    }
}

pub open spec fn code_of(e: ApiError) -> Seq<char> {
    match e {
        ApiError::ModelNotFound { .. } => "MODEL_NOT_FOUND"@,
        ApiError::ProviderNotFound { .. } => "PROVIDER_NOT_FOUND"@,
        ApiError::AliasNotFound { .. } => "ALIAS_NOT_FOUND"@,
        ApiError::BadRequest { .. } => "BAD_REQUEST"@,
        ApiError::NotFound { .. } => "NOT_FOUND"@,
        ApiError::Internal { .. } => "INTERNAL_SERVER_ERROR"@,
    }
}

pub open spec fn message_of(e: ApiError) -> Seq<char> {
    match e {
        ApiError::ModelNotFound { .. } => "model not found"@,
        ApiError::ProviderNotFound { .. } => "provider not found"@,
        ApiError::AliasNotFound { .. } => "alias not found"@,
        ApiError::BadRequest { message } => message@,
        ApiError::NotFound { message } => message@,
        ApiError::Internal { .. } => "internal server error"@,
    }
}

/// The fields of the error's `details` object, in order; none for errors
/// without details.
pub open spec fn details_of(e: ApiError) -> Seq<(Seq<char>, Seq<char>)> {
    match e {
        ApiError::ModelNotFound { provider, id } => seq![("provider"@, provider@), ("id"@, id@)],
        ApiError::ProviderNotFound { provider } => seq![("provider"@, provider@)],
        ApiError::AliasNotFound { alias } => seq![("alias"@, alias@)],
        _ => Seq::empty(),
    }
}

pub open spec fn pairs_view(v: Seq<(String, String)>) -> Seq<(Seq<char>, Seq<char>)> {
    v.map_values(|p: (String, String)| (p.0@, p.1@))
}

impl ApiError {
    /// The HTTP status of the error.
    pub fn status_code(&self) -> (r: u16)
        ensures
            r == status_of(*self),
    {
        match self {
            ApiError::ModelNotFound { .. } => 404,
            ApiError::ProviderNotFound { .. } => 404,
            ApiError::AliasNotFound { .. } => 404,
            ApiError::BadRequest { .. } => 400,
            ApiError::NotFound { .. } => 404,
            ApiError::Internal { .. } => 500,
        }
    }

    /// The machine-readable code of the error.
    pub fn error_code(&self) -> (r: &'static str)
        ensures
            r@ == code_of(*self),
    {
        match self {
            ApiError::ModelNotFound { .. } => "MODEL_NOT_FOUND",
            ApiError::ProviderNotFound { .. } => "PROVIDER_NOT_FOUND",
            ApiError::AliasNotFound { .. } => "ALIAS_NOT_FOUND",
            ApiError::BadRequest { .. } => "BAD_REQUEST",
            ApiError::NotFound { .. } => "NOT_FOUND",
            ApiError::Internal { .. } => "INTERNAL_SERVER_ERROR",
        }
    }

    /// The message of the error, as the response envelope carries it.
    pub fn message(&self) -> (r: String)
        ensures
            r@ == message_of(*self),
    {
        match self {
            ApiError::ModelNotFound { .. } => "model not found".to_owned(),
            ApiError::ProviderNotFound { .. } => "provider not found".to_owned(),
            ApiError::AliasNotFound { .. } => "alias not found".to_owned(),
            ApiError::BadRequest { message } => message.clone(),
            ApiError::NotFound { message } => message.clone(),
            ApiError::Internal { .. } => "internal server error".to_owned(),
        }
    }

    /// The fields of the error's `details` object.
    pub fn details(&self) -> (r: Vec<(String, String)>)
        ensures
            pairs_view(r@) == details_of(*self),
    {
        let mut r: Vec<(String, String)> = Vec::new();
        match self {
            ApiError::ModelNotFound { provider, id } => {
                r.push(("provider".to_owned(), provider.clone()));
                r.push(("id".to_owned(), id.clone()));
            },
            ApiError::ProviderNotFound { provider } => {
                r.push(("provider".to_owned(), provider.clone()));
            },
            ApiError::AliasNotFound { alias } => {
                r.push(("alias".to_owned(), alias.clone()));
            },
            _ => {},
        }
        proof {
            assert(pairs_view(r@) =~= details_of(*self));
        }
        r
    }
}

} // verus!
