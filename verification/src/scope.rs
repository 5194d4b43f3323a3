//! Catalog scope: which providers and models a deployment exposes.
//!
//! A scope is read from four comma-separated lists (or from the groups of a
//! scope file) and applied to a loaded catalog: it keeps the models that are
//! included and not excluded, the providers that still have a model, and the
//! aliases that still point at a visible model.
use vstd::prelude::*;
use crate::catalog::{Model, Provider};
use crate::text::{blank, is_blank, split, split_seq, trim, trim_seq, views};

verus! {

#[derive(Clone, Debug, PartialEq, Eq)]
pub struct ModelRef {
    pub provider: String,
    pub id: String,
}

pub open spec fn ref_view(r: ModelRef) -> (Seq<char>, Seq<char>) {
    (r.provider@, r.id@)
}

pub open spec fn refs_view(v: Seq<ModelRef>) -> Seq<(Seq<char>, Seq<char>)> {
    v.map_values(|r: ModelRef| ref_view(r))
}

/// A scope; every list holds each entry once. All lists empty means that
/// scoping is disabled.
#[derive(Clone, Debug)]
pub struct CatalogScope {
    pub include_providers: Vec<String>,
    pub exclude_providers: Vec<String>,
    pub include_models: Vec<ModelRef>,
    pub exclude_models: Vec<ModelRef>,
}

/// Why a scope could not be read or applied.
#[derive(Clone, Debug)]
pub enum ScopeError {
    /// Both a scope file and scope lists were given.
    ModeConflict,
    /// A model reference is not of the form `provider/model-id`.
    InvalidModelRef { value: String },
    /// The scope names a provider that the catalog does not hold.
    UnknownProvider { provider: String },
    /// The scope names a model that the catalog does not hold.
    UnknownModel { provider: String, id: String },
    /// No model is left once the scope is applied.
    NoVisibleModels,
}

/// Where a scope comes from: the lists themselves, or a scope file at a path.
#[derive(Clone, Debug)]
pub enum ScopeSource {
    Lists(CatalogScope),
    File(String),
}

/// A catalog once a scope has been applied.
#[derive(Debug)]
pub struct ScopedCatalog {
    pub providers: Vec<Provider>,
    pub models: Vec<Model>,
    pub aliases: Vec<(String, String)>,
}

/// The sequence with every later repetition of an element removed.
pub open spec fn dedup<A>(s: Seq<A>) -> Seq<A>
    decreases s.len(),
{
    if s.len() == 0 {
        s
    } else {
        let d = dedup(s.drop_last());
        if d.contains(s.last()) {
            d
        } else {
            d.push(s.last())
        }
    }
}

/// The trimmed pieces that are not empty.
pub open spec fn kept_trimmed(ps: Seq<Seq<char>>) -> Seq<Seq<char>>
    decreases ps.len(),
{
    if ps.len() == 0 {
        Seq::empty()
    } else {
        let k = kept_trimmed(ps.drop_last());
        let t = trim_seq(ps.last());
        if t.len() > 0 {
            k.push(t)
        } else {
            k
        }
    }
}

/// `provider/model-id`, both parts trimmed; `None` unless the text has
/// exactly one `/` and both parts hold more than whitespace.
pub open spec fn model_ref_spec(v: Seq<char>) -> Option<(Seq<char>, Seq<char>)> {
    let p = split_seq(v, '/');
    if p.len() == 2 && !blank(p[0]) && !blank(p[1]) {
        Some((trim_seq(p[0]), trim_seq(p[1])))
    } else {
        None
    }
}

/// The references that the trimmed, non-empty pieces write, or the first
/// trimmed piece that is not a reference.
pub open spec fn refs_of(ps: Seq<Seq<char>>) -> Result<
    Seq<(Seq<char>, Seq<char>)>,
    Seq<char>,
>
    decreases ps.len(),
{
    if ps.len() == 0 {
        Ok(Seq::empty())
    } else {
        match refs_of(ps.drop_last()) {
            Err(e) => Err(e),
            Ok(k) => {
                let t = trim_seq(ps.last());
                if t.len() == 0 {
                    Ok(k)
                } else {
                    match model_ref_spec(t) {
                        None => Err(t),
                        Some(r) => Ok(k.push(r)),
                    }
                }
            },
        }
    }
}

/// The provider list that a comma-separated value gives.
pub open spec fn provider_list_spec(value: Option<Seq<char>>) -> Seq<Seq<char>> {
    match value {
        None => Seq::empty(),
        Some(v) => dedup(kept_trimmed(split_seq(v, ','))),
    }
}

/// The model list that a comma-separated value gives, or the first bad reference.
pub open spec fn model_list_spec(value: Option<Seq<char>>) -> Result<
    Seq<(Seq<char>, Seq<char>)>,
    Seq<char>,
> {
    match value {
        None => Ok(Seq::empty()),
        Some(v) => match refs_of(split_seq(v, ',')) {
            Ok(k) => Ok(dedup(k)),
            Err(e) => Err(e),
        },
    }
}

pub open spec fn opt_view(v: Option<&str>) -> Option<Seq<char>> {
    match v {
        Some(s) => Some(s@),
        None => None,
    }
}

pub open spec fn opt_string_view(v: Option<String>) -> Option<Seq<char>> {
    match v {
        Some(s) => Some(s@),
        None => None,
    }
}

pub open spec fn has_value_spec(v: Option<Seq<char>>) -> bool {
    v matches Some(s) && !blank(s)
}

impl CatalogScope {
    /// Each list holds every entry once.
    pub open spec fn well_formed(&self) -> bool {
        &&& views(self.include_providers@).no_duplicates()
        &&& views(self.exclude_providers@).no_duplicates()
        &&& refs_view(self.include_models@).no_duplicates()
        &&& refs_view(self.exclude_models@).no_duplicates()
    }

    pub open spec fn disabled_spec(&self) -> bool {
        &&& self.include_providers@.len() == 0
        &&& self.exclude_providers@.len() == 0
        &&& self.include_models@.len() == 0
        &&& self.exclude_models@.len() == 0
    }

    /// Whether a model with this provider and id is included.
    pub open spec fn includes_spec(&self, provider: Seq<char>, id: Seq<char>) -> bool {
        ||| (self.include_providers@.len() == 0 && self.include_models@.len() == 0)
        ||| views(self.include_providers@).contains(provider)
        ||| refs_view(self.include_models@).contains((provider, id))
    }

    /// Whether a model with this provider and id is excluded.
    pub open spec fn excludes_spec(&self, provider: Seq<char>, id: Seq<char>) -> bool {
        ||| views(self.exclude_providers@).contains(provider)
        ||| refs_view(self.exclude_models@).contains((provider, id))
    }

    pub open spec fn visible_spec(&self, m: Model) -> bool {
        self.includes_spec(m.provider@, m.id@) && !self.excludes_spec(m.provider@, m.id@)
    }

    /// The scope that keeps everything.
    pub fn disabled() -> (r: Self)
        ensures
            r.disabled_spec(),
            r.well_formed(),
    {
        let r = CatalogScope {
            include_providers: Vec::new(),
            exclude_providers: Vec::new(),
            include_models: Vec::new(),
            exclude_models: Vec::new(),
        };
        proof {
            assert(views(r.include_providers@) =~= Seq::<Seq<char>>::empty());
            assert(views(r.exclude_providers@) =~= Seq::<Seq<char>>::empty());
            assert(refs_view(r.include_models@) =~= Seq::<(Seq<char>, Seq<char>)>::empty());
            assert(refs_view(r.exclude_models@) =~= Seq::<(Seq<char>, Seq<char>)>::empty());
        }
        r
    }

    /// Whether scoping is off: no list holds anything.
    pub fn is_disabled(&self) -> (r: bool)
        ensures
            r == self.disabled_spec(),
    {
        self.include_providers.len() == 0 && self.exclude_providers.len() == 0
            && self.include_models.len() == 0 && self.exclude_models.len() == 0
    }
}


/// Whether a string with the given characters occurs in the list.
pub fn contains_text(v: &Vec<String>, t: &String) -> (r: bool)
    ensures
        r == views(v@).contains(t@),
{
    let mut i: usize = 0;
    while i < v.len()
        invariant
            i <= v.len(),
            forall|j: int| 0 <= j < i ==> v@[j]@ != t@,
        decreases v.len() - i,
    {
        if v[i] == *t {
            proof {
                assert(views(v@)[i as int] == t@);
            }
            return true;
        }
        i = i + 1;
    }
    proof {
        if views(v@).contains(t@) {
            let k = choose|k: int| 0 <= k < views(v@).len() && views(v@)[k] == t@;
            assert(v@[k]@ == t@);
        }
    }
    false
}

/// Whether a reference with this provider and id occurs in the list.
pub fn contains_ref(v: &Vec<ModelRef>, provider: &String, id: &String) -> (r: bool)
    ensures
        r == refs_view(v@).contains((provider@, id@)),
{
    let mut i: usize = 0;
    while i < v.len()
        invariant
            i <= v.len(),
            forall|j: int| 0 <= j < i ==> ref_view(v@[j]) != (provider@, id@),
        decreases v.len() - i,
    {
        if v[i].provider == *provider && v[i].id == *id {
            proof {
                assert(refs_view(v@)[i as int] == (provider@, id@));
            }
            return true;
        }
        i = i + 1;
    }
    proof {
        if refs_view(v@).contains((provider@, id@)) {
            let k = choose|k: int|
                0 <= k < refs_view(v@).len() && refs_view(v@)[k] == (provider@, id@);
            assert(ref_view(v@[k]) == (provider@, id@));
        }
    }
    false
}

/// Parses `provider/model-id`; both parts are trimmed and must not be blank.
pub fn parse_model_ref(value: &str) -> (r: Result<ModelRef, ScopeError>)
    ensures
        match model_ref_spec(value@) {
            Some(pair) => r matches Ok(m) && ref_view(m) == pair,
            None => r matches Err(ScopeError::InvalidModelRef { value: v }) && v@ == value@,
        },
{
    let parts = split(value, '/');
    if parts.len() != 2 || is_blank(parts[0].as_str()) || is_blank(parts[1].as_str()) {
        proof {
            if parts.len() == 2 {
                assert(views(parts@)[0] == parts@[0]@);
                assert(views(parts@)[1] == parts@[1]@);
            }
        }
        return Err(ScopeError::InvalidModelRef { value: value.to_owned() });
    }
    proof {
        assert(views(parts@)[0] == parts@[0]@);
        assert(views(parts@)[1] == parts@[1]@);
    }
    Ok(ModelRef { provider: trim(parts[0].as_str()), id: trim(parts[1].as_str()) })
}

proof fn lemma_views_push(v: Seq<String>, x: String)
    ensures
        views(v.push(x)) == views(v).push(x@),
{
    assert(views(v.push(x)) =~= views(v).push(x@));
}

proof fn lemma_refs_push(v: Seq<ModelRef>, x: ModelRef)
    ensures
        refs_view(v.push(x)) == refs_view(v).push(ref_view(x)),
{
    assert(refs_view(v.push(x)) =~= refs_view(v).push(ref_view(x)));
}

pub proof fn lemma_push_contains<A>(s: Seq<A>, a: A, x: A)
    ensures
        s.push(a).contains(x) <==> (s.contains(x) || x == a),
{
    if s.contains(x) {
        let k = choose|k: int| 0 <= k < s.len() && s[k] == x;
        assert(s.push(a)[k] == x);
    }
    if x == a {
        assert(s.push(a)[s.len() as int] == x);
    }
    if s.push(a).contains(x) && x != a {
        let k = choose|k: int| 0 <= k < s.len() + 1 && s.push(a)[k] == x;
        assert(s[k] == x);
    }
}

pub proof fn lemma_dedup_no_duplicates<A>(s: Seq<A>)
    ensures
        dedup(s).no_duplicates(),
        forall|x: A| dedup(s).contains(x) <==> s.contains(x),
    decreases s.len(),
{
    if s.len() > 0 {
        let p = s.drop_last();
        let a = s.last();
        assert(s =~= p.push(a));
        lemma_dedup_no_duplicates(p);
        let d = dedup(p);
        assert forall|x: A| dedup(s).contains(x) <==> s.contains(x) by {
            lemma_push_contains(p, a, x);
            lemma_push_contains(d, a, x);
        }
        if !d.contains(a) {
            assert forall|i: int, j: int|
                0 <= i < d.len() + 1 && 0 <= j < d.len() + 1 && i != j implies d.push(a)[i]
                != d.push(a)[j] by {
                if i < d.len() && j < d.len() {
                    assert(d.push(a)[i] == d[i]);
                    assert(d.push(a)[j] == d[j]);
                } else if i == d.len() {
                    assert(d[j] == d.push(a)[j]);
                } else {
                    assert(d[i] == d.push(a)[i]);
                }
            }
        }
    }
}

/// The trimmed, non-empty pieces, each kept once, in order of first appearance
/// (a provider list).
pub fn normalize_pieces(ps: &Vec<String>) -> (r: Vec<String>)
    ensures
        views(r@) == dedup(kept_trimmed(views(ps@))),
{
    let mut out: Vec<String> = Vec::new();
    let mut i: usize = 0;
    proof {
        assert(views(ps@).take(0) =~= Seq::<Seq<char>>::empty());
        assert(views(out@) =~= Seq::<Seq<char>>::empty());
    }
    while i < ps.len()
        invariant
            i <= ps.len(),
            views(out@) == dedup(kept_trimmed(views(ps@).take(i as int))),
        decreases ps.len() - i,
    {
        let t = trim(ps[i].as_str());
        proof {
            let pre = views(ps@).take(i as int);
            assert(views(ps@).take(i + 1).drop_last() =~= pre);
            assert(views(ps@).take(i + 1).last() == ps@[i as int]@);
        }
        proof {
            let k = kept_trimmed(views(ps@).take(i as int));
            assert(k.push(t@).drop_last() =~= k);
        }
        if t.as_str().unicode_len() > 0 {
            if !contains_text(&out, &t) {
                let ghost before = out@;
                out.push(t);
                proof {
                    lemma_views_push(before, t);
                }
            }
        }
        i = i + 1;
    }
    proof {
        assert(views(ps@).take(ps.len() as int) =~= views(ps@));
    }
    out
}


proof fn lemma_refs_err_extends(ps: Seq<Seq<char>>, i: int)
    requires
        0 <= i <= ps.len(),
        refs_of(ps.take(i)) is Err,
    ensures
        refs_of(ps) == refs_of(ps.take(i)),
    decreases ps.len(),
{
    if ps.len() == i {
        assert(ps.take(i) =~= ps);
    } else {
        assert(ps.drop_last().take(i) =~= ps.take(i));
        lemma_refs_err_extends(ps.drop_last(), i);
    }
}

/// The references that the trimmed, non-empty pieces write, each kept once,
/// or the error for the first piece that is not a reference.
pub fn parse_ref_pieces(ps: &Vec<String>) -> (r: Result<Vec<ModelRef>, ScopeError>)
    ensures
        match refs_of(views(ps@)) {
            Ok(k) => r matches Ok(v) && refs_view(v@) == dedup(k),
            Err(e) => r matches Err(ScopeError::InvalidModelRef { value }) && value@ == e,
        },
{
    let mut out: Vec<ModelRef> = Vec::new();
    let mut i: usize = 0;
    proof {
        assert(views(ps@).take(0) =~= Seq::<Seq<char>>::empty());
        assert(refs_view(out@) =~= Seq::<(Seq<char>, Seq<char>)>::empty());
    }
    while i < ps.len()
        invariant
            i <= ps.len(),
            refs_of(views(ps@).take(i as int)) matches Ok(k) && refs_view(out@) == dedup(k),
        decreases ps.len() - i,
    {
        let t = trim(ps[i].as_str());
        let ghost k = refs_of(views(ps@).take(i as int))->Ok_0;
        proof {
            let pre = views(ps@).take(i as int);
            assert(views(ps@).take(i + 1).drop_last() =~= pre);
            assert(views(ps@).take(i + 1).last() == ps@[i as int]@);
        }
        if t.as_str().unicode_len() > 0 {
            match parse_model_ref(t.as_str()) {
                Ok(m) => {
                    proof {
                        assert(k.push(ref_view(m)).drop_last() =~= k);
                    }
                    if !contains_ref(&out, &m.provider, &m.id) {
                        let ghost before = out@;
                        out.push(m);
                        proof {
                            lemma_refs_push(before, m);
                        }
                    }
                },
                Err(e) => {
                    proof {
                        lemma_refs_err_extends(views(ps@), i + 1);
                    }
                    return Err(e);
                },
            }
        }
        i = i + 1;
    }
    proof {
        assert(views(ps@).take(ps.len() as int) =~= views(ps@));
    }
    Ok(out)
}

/// The providers that a comma-separated value lists: trimmed, non-empty, each once.
pub fn parse_provider_list(value: Option<&str>) -> (r: Vec<String>)
    ensures
        views(r@) == provider_list_spec(opt_view(value)),
{
    match value {
        None => {
            let r: Vec<String> = Vec::new();
            proof {
                assert(views(r@) =~= Seq::<Seq<char>>::empty());
            }
            r
        },
        Some(v) => {
            let pieces = split(v, ',');
            normalize_pieces(&pieces)
        },
    }
}

/// The models that a comma-separated value lists, each once, or the error for
/// the first entry that is not `provider/model-id`.
pub fn parse_model_list(value: Option<&str>) -> (r: Result<Vec<ModelRef>, ScopeError>)
    ensures
        match model_list_spec(opt_view(value)) {
            Ok(k) => r matches Ok(v) && refs_view(v@) == k,
            Err(e) => r matches Err(ScopeError::InvalidModelRef { value }) && value@ == e,
        },
{
    match value {
        None => {
            let r: Vec<ModelRef> = Vec::new();
            proof {
                assert(refs_view(r@) =~= Seq::<(Seq<char>, Seq<char>)>::empty());
            }
            Ok(r)
        },
        Some(v) => {
            let pieces = split(v, ',');
            parse_ref_pieces(&pieces)
        },
    }
}

fn has_value(v: Option<&str>) -> (r: bool)
    ensures
        r == has_value_spec(opt_view(v)),
{
    match v {
        Some(s) => !is_blank(s),
        None => false,
    }
}


/// The first element of `list` for which `known` does not hold.
pub open spec fn first_missing<A>(list: Seq<A>, known: spec_fn(A) -> bool) -> Option<A>
    decreases list.len(),
{
    if list.len() == 0 {
        None
    } else if !known(list[0]) {
        Some(list[0])
    } else {
        first_missing(list.drop_first(), known)
    }
}

pub open spec fn provider_ids(ps: Seq<Provider>) -> Seq<Seq<char>> {
    ps.map_values(|p: Provider| p.id@)
}

pub open spec fn model_refs(ms: Seq<Model>) -> Seq<(Seq<char>, Seq<char>)> {
    ms.map_values(|m: Model| (m.provider@, m.id@))
}

pub open spec fn model_ids(ms: Seq<Model>) -> Seq<Seq<char>> {
    ms.map_values(|m: Model| m.id@)
}

pub open spec fn model_providers(ms: Seq<Model>) -> Seq<Seq<char>> {
    ms.map_values(|m: Model| m.provider@)
}

pub open spec fn known_provider(ps: Seq<Provider>) -> spec_fn(Seq<char>) -> bool {
    |p: Seq<char>| provider_ids(ps).contains(p)
}

pub open spec fn known_ref(ms: Seq<Model>) -> spec_fn((Seq<char>, Seq<char>)) -> bool {
    |r: (Seq<char>, Seq<char>)| model_refs(ms).contains(r)
}

/// The providers that still have a visible model.
pub open spec fn kept_providers(ps: Seq<Provider>, vis: Seq<Model>) -> Seq<Provider> {
    ps.filter(|p: Provider| model_providers(vis).contains(p.id@))
}

/// The aliases whose target is still a visible model.
pub open spec fn kept_aliases(al: Seq<(String, String)>, vis: Seq<Model>) -> Seq<(String, String)> {
    al.filter(|a: (String, String)| model_ids(vis).contains(a.1@))
}

proof fn lemma_first_missing_step<A>(list: Seq<A>, known: spec_fn(A) -> bool, i: int)
    requires
        0 <= i < list.len(),
        known(list[i]),
    ensures
        first_missing(list.skip(i), known) == first_missing(list.skip(i + 1), known),
{
    assert(list.skip(i)[0] == list[i]);
    assert(list.skip(i).drop_first() =~= list.skip(i + 1));
}

/// The view of a scope error: a kind (in the order of the variants) and the
/// texts that it carries.
pub type Fault = (int, Seq<char>, Seq<char>);

pub open spec fn fault_conflict() -> Fault {
    (0, Seq::empty(), Seq::empty())
}

pub open spec fn fault_invalid_ref(v: Seq<char>) -> Fault {
    (1, v, Seq::empty())
}

pub open spec fn fault_unknown_provider(p: Seq<char>) -> Fault {
    (2, p, Seq::empty())
}

pub open spec fn fault_unknown_model(p: Seq<char>, id: Seq<char>) -> Fault {
    (3, p, id)
}

pub open spec fn fault_no_visible() -> Fault {
    (4, Seq::empty(), Seq::empty())
}

impl View for ScopeError {
    type V = Fault;

    open spec fn view(&self) -> Fault {
        match self {
            ScopeError::ModeConflict => fault_conflict(),
            ScopeError::InvalidModelRef { value } => fault_invalid_ref(value@),
            ScopeError::UnknownProvider { provider } => fault_unknown_provider(provider@),
            ScopeError::UnknownModel { provider, id } => fault_unknown_model(provider@, id@),
            ScopeError::NoVisibleModels => fault_no_visible(),
        }
    }
}

impl CatalogScope {
    /// The error, if any, for a scope entry that the catalog does not hold:
    /// providers are checked first (included, then excluded), then models.
    pub open spec fn unknown_entry(&self, ps: Seq<Provider>, ms: Seq<Model>) -> Option<Fault> {
        let known_p = known_provider(ps);
        let known_m = known_ref(ms);
        match first_missing(views(self.include_providers@ + self.exclude_providers@), known_p) {
            Some(p) => Some(fault_unknown_provider(p)),
            None => match first_missing(
                refs_view(self.include_models@ + self.exclude_models@),
                known_m,
            ) {
                Some(r) => Some(fault_unknown_model(r.0, r.1)),
                None => None,
            },
        }
    }
}


fn provider_known(ps: &Vec<Provider>, id: &String) -> (r: bool)
    ensures
        r == provider_ids(ps@).contains(id@),
{
    let mut i: usize = 0;
    while i < ps.len()
        invariant
            i <= ps.len(),
            forall|j: int| 0 <= j < i ==> ps@[j].id@ != id@,
        decreases ps.len() - i,
    {
        if ps[i].id == *id {
            proof {
                assert(provider_ids(ps@)[i as int] == id@);
            }
            return true;
        }
        i = i + 1;
    }
    proof {
        if provider_ids(ps@).contains(id@) {
            let k = choose|k: int| 0 <= k < provider_ids(ps@).len() && provider_ids(ps@)[k] == id@;
            assert(ps@[k].id@ == id@);
        }
    }
    false
}

fn model_known(ms: &Vec<Model>, provider: &String, id: &String) -> (r: bool)
    ensures
        r == model_refs(ms@).contains((provider@, id@)),
{
    let mut i: usize = 0;
    while i < ms.len()
        invariant
            i <= ms.len(),
            forall|j: int| 0 <= j < i ==> (ms@[j].provider@, ms@[j].id@) != (provider@, id@),
        decreases ms.len() - i,
    {
        if ms[i].provider == *provider && ms[i].id == *id {
            proof {
                assert(model_refs(ms@)[i as int] == (provider@, id@));
            }
            return true;
        }
        i = i + 1;
    }
    proof {
        if model_refs(ms@).contains((provider@, id@)) {
            let k = choose|k: int|
                0 <= k < model_refs(ms@).len() && model_refs(ms@)[k] == (provider@, id@);
            assert((ms@[k].provider@, ms@[k].id@) == (provider@, id@));
        }
    }
    false
}

impl CatalogScope {
    /// Every provider and model that the scope names must be in the catalog.
    pub fn validate_known_entries(&self, providers: &Vec<Provider>, models: &Vec<Model>) -> (r:
        Result<(), ScopeError>)
        ensures
            match self.unknown_entry(providers@, models@) {
                Some(f) => r matches Err(e) && e@ == f,
                None => r is Ok,
            },
    {
        let ghost known_p = known_provider(providers@);
        let ghost known_m = known_ref(models@);
        let ghost plist = views(self.include_providers@ + self.exclude_providers@);
        let n1 = self.include_providers.len();
        let n2 = self.exclude_providers.len();
        let mut j: usize = 0;
        proof {
            assert(plist.skip(0) =~= plist);
        }
        while j < n1
            invariant
                j <= n1 == self.include_providers.len(),
                n2 == self.exclude_providers.len(),
                plist == views(self.include_providers@ + self.exclude_providers@),
                known_p == known_provider(providers@),
                first_missing(plist, known_p) == first_missing(plist.skip(j as int), known_p),
            decreases n1 - j,
        {
            let name = &self.include_providers[j];
            proof {
                assert(plist[j as int] == name@);
                assert(plist.skip(j as int)[0] == plist[j as int]);
            }
            if !provider_known(providers, name) {
                return Err(ScopeError::UnknownProvider { provider: name.clone() });
            }
            proof {
                lemma_first_missing_step(plist, known_p, j as int);
            }
            j = j + 1;
        }
        let mut j2: usize = 0;
        while j2 < n2
            invariant
                j2 <= n2 == self.exclude_providers.len(),
                n1 == self.include_providers.len(),
                plist == views(self.include_providers@ + self.exclude_providers@),
                known_p == known_provider(providers@),
                first_missing(plist, known_p) == first_missing(plist.skip(n1 + j2), known_p),
            decreases n2 - j2,
        {
            let name = &self.exclude_providers[j2];
            proof {
                assert(plist[n1 + j2] == name@);
                assert(plist.skip(n1 + j2)[0] == plist[n1 + j2]);
            }
            if !provider_known(providers, name) {
                return Err(ScopeError::UnknownProvider { provider: name.clone() });
            }
            proof {
                lemma_first_missing_step(plist, known_p, n1 + j2);
            }
            j2 = j2 + 1;
        }
        proof {
            assert(plist.skip(n1 + n2).len() == 0);
        }
        let ghost mlist = refs_view(self.include_models@ + self.exclude_models@);
        let m1 = self.include_models.len();
        let m2 = self.exclude_models.len();
        let mut k: usize = 0;
        proof {
            assert(mlist.skip(0) =~= mlist);
        }
        while k < m1
            invariant
                k <= m1 == self.include_models.len(),
                m2 == self.exclude_models.len(),
                mlist == refs_view(self.include_models@ + self.exclude_models@),
                known_m == known_ref(models@),
                first_missing(mlist, known_m) == first_missing(mlist.skip(k as int), known_m),
                first_missing(plist, known_p) is None,
                plist == views(self.include_providers@ + self.exclude_providers@),
                known_p == known_provider(providers@),
            decreases m1 - k,
        {
            let mr = &self.include_models[k];
            proof {
                assert(mlist[k as int] == ref_view(*mr));
                assert(mlist.skip(k as int)[0] == mlist[k as int]);
            }
            if !model_known(models, &mr.provider, &mr.id) {
                return Err(
                    ScopeError::UnknownModel { provider: mr.provider.clone(), id: mr.id.clone() },
                );
            }
            proof {
                lemma_first_missing_step(mlist, known_m, k as int);
            }
            k = k + 1;
        }
        let mut k2: usize = 0;
        while k2 < m2
            invariant
                k2 <= m2 == self.exclude_models.len(),
                m1 == self.include_models.len(),
                mlist == refs_view(self.include_models@ + self.exclude_models@),
                known_m == known_ref(models@),
                first_missing(mlist, known_m) == first_missing(mlist.skip(m1 + k2), known_m),
                first_missing(plist, known_p) is None,
                plist == views(self.include_providers@ + self.exclude_providers@),
                known_p == known_provider(providers@),
            decreases m2 - k2,
        {
            let mr = &self.exclude_models[k2];
            proof {
                assert(mlist[m1 + k2] == ref_view(*mr));
                assert(mlist.skip(m1 + k2)[0] == mlist[m1 + k2]);
            }
            if !model_known(models, &mr.provider, &mr.id) {
                return Err(
                    ScopeError::UnknownModel { provider: mr.provider.clone(), id: mr.id.clone() },
                );
            }
            proof {
                lemma_first_missing_step(mlist, known_m, m1 + k2);
            }
            k2 = k2 + 1;
        }
        proof {
            assert(mlist.skip(m1 + m2).len() == 0);
        }
        Ok(())
    }
}


pub open spec fn visible_models(scope: CatalogScope, ms: Seq<Model>) -> Seq<Model> {
    ms.filter(|m: Model| scope.visible_spec(m))
}

fn text_in(v: &Vec<String>, t: &String) -> (r: bool)
    ensures
        r == views(v@).contains(t@),
{
    contains_text(v, t)
}

impl CatalogScope {
    /// Whether the model is included (`includes_model`).
    pub fn includes_model(&self, model: &Model) -> (r: bool)
        ensures
            r == self.includes_spec(model.provider@, model.id@),
    {
        if self.include_providers.len() == 0 && self.include_models.len() == 0 {
            return true;
        }
        text_in(&self.include_providers, &model.provider) || contains_ref(
            &self.include_models,
            &model.provider,
            &model.id,
        )
    }

    /// Whether the model is excluded (`excludes_model`).
    pub fn excludes_model(&self, model: &Model) -> (r: bool)
        ensures
            r == self.excludes_spec(model.provider@, model.id@),
    {
        text_in(&self.exclude_providers, &model.provider) || contains_ref(
            &self.exclude_models,
            &model.provider,
            &model.id,
        )
    }

    /// Applies the scope to a catalog. A disabled scope keeps everything.
    /// Otherwise every entry of the scope must be in the catalog; the models
    /// kept are those included and not excluded (an exclusion wins), at least
    /// one must be kept, and the providers and aliases kept are those that
    /// still reach a kept model.
    pub fn apply(
        &self,
        providers: Vec<Provider>,
        models: Vec<Model>,
        aliases: Vec<(String, String)>,
    ) -> (r: Result<ScopedCatalog, ScopeError>)
        ensures
            self.disabled_spec() ==> (r matches Ok(c) && c.providers@ == providers@ && c.models@
                == models@ && c.aliases@ == aliases@),
            !self.disabled_spec() ==> match self.unknown_entry(providers@, models@) {
                Some(f) => r matches Err(e) && e@ == f,
                None => {
                    let vis = visible_models(*self, models@);
                    if vis.len() == 0 {
                        r matches Err(e) && e@ == fault_no_visible()
                    } else {
                        r matches Ok(c) && c.models@ == vis && c.providers@ == kept_providers(
                            providers@,
                            vis,
                        ) && c.aliases@ == kept_aliases(aliases@, vis)
                    }
                },
            },
    {
        if self.is_disabled() {
            return Ok(ScopedCatalog { providers, models, aliases });
        }
        match self.validate_known_entries(&providers, &models) {
            Err(e) => {
                return Err(e);
            },
            Ok(()) => {},
        }
        let ghost all_models = models@;
        let mut visible: Vec<Model> = Vec::new();
        let mut visible_ids: Vec<String> = Vec::new();
        let mut visible_providers: Vec<String> = Vec::new();
        proof {
            reveal(Seq::filter);
        }
        for m in it: models.into_iter()
            invariant
                it.seq() == all_models,
                visible@ == all_models.take(it.index() as int).filter(
                    |m: Model| self.visible_spec(m),
                ),
                views(visible_ids@) == model_ids(visible@),
                views(visible_providers@) == model_providers(visible@),
        {
            proof {
                reveal(Seq::filter);
                assert(all_models.take(it.index() + 1).drop_last() =~= all_models.take(
                    it.index() as int,
                ));
            }
            if self.includes_model(&m) && !self.excludes_model(&m) {
                let ghost before = visible@;
                let ghost bi = visible_ids@;
                let ghost bp = visible_providers@;
                let idc = m.id.clone();
                let pc = m.provider.clone();
                visible_ids.push(idc);
                visible_providers.push(pc);
                visible.push(m);
                proof {
                    lemma_views_push(bi, idc);
                    lemma_views_push(bp, pc);
                    assert(model_ids(before.push(m)) =~= model_ids(before).push(m.id@));
                    assert(model_providers(before.push(m)) =~= model_providers(before).push(
                        m.provider@,
                    ));
                }
            }
        }
        proof {
            assert(all_models.take(all_models.len() as int) =~= all_models);
        }
        if visible.len() == 0 {
            return Err(ScopeError::NoVisibleModels);
        }
        let ghost vis = visible@;
        let ghost all_providers = providers@;
        let mut kept_p: Vec<Provider> = Vec::new();
        for p in it: providers.into_iter()
            invariant
                it.seq() == all_providers,
                views(visible_providers@) == model_providers(vis),
                kept_p@ == all_providers.take(it.index() as int).filter(
                    |p: Provider| model_providers(vis).contains(p.id@),
                ),
        {
            proof {
                reveal(Seq::filter);
                assert(all_providers.take(it.index() + 1).drop_last() =~= all_providers.take(
                    it.index() as int,
                ));
            }
            if text_in(&visible_providers, &p.id) {
                kept_p.push(p);
            }
        }
        proof {
            assert(all_providers.take(all_providers.len() as int) =~= all_providers);
        }
        let ghost all_aliases = aliases@;
        let mut kept_a: Vec<(String, String)> = Vec::new();
        for a in it: aliases.into_iter()
            invariant
                it.seq() == all_aliases,
                views(visible_ids@) == model_ids(vis),
                kept_a@ == all_aliases.take(it.index() as int).filter(
                    |a: (String, String)| model_ids(vis).contains(a.1@),
                ),
        {
            proof {
                reveal(Seq::filter);
                assert(all_aliases.take(it.index() + 1).drop_last() =~= all_aliases.take(
                    it.index() as int,
                ));
            }
            if text_in(&visible_ids, &a.1) {
                kept_a.push(a);
            }
        }
        proof {
            assert(all_aliases.take(all_aliases.len() as int) =~= all_aliases);
        }
        Ok(ScopedCatalog { providers: kept_p, models: visible, aliases: kept_a })
    }
}


fn as_opt_str(v: &Option<String>) -> (r: Option<&str>)
    ensures
        opt_view(r) == opt_string_view(*v),
{
    match v {
        Some(s) => Some(s.as_str()),
        None => None,
    }
}

/// The outcome of reading a scope from the four lists and a scope-file path.
pub open spec fn from_values_spec(
    r: Result<ScopeSource, ScopeError>,
    ip: Option<Seq<char>>,
    ep: Option<Seq<char>>,
    im: Option<Seq<char>>,
    em: Option<Seq<char>>,
    sf: Option<Seq<char>>,
) -> bool {
    let env = has_value_spec(ip) || has_value_spec(ep) || has_value_spec(im) || has_value_spec(
        em,
    );
    let file = has_value_spec(sf);
    if env && file {
        r matches Err(e) && e@ == fault_conflict()
    } else if file {
        r matches Ok(ScopeSource::File(p)) && p@ == trim_seq(sf->0)
    } else {
        match model_list_spec(im) {
            Err(e) => r matches Err(x) && x@ == fault_invalid_ref(e),
            Ok(a) => match model_list_spec(em) {
                Err(e) => r matches Err(x) && x@ == fault_invalid_ref(e),
                Ok(b) => r matches Ok(ScopeSource::Lists(s)) && views(s.include_providers@)
                    == provider_list_spec(ip) && views(s.exclude_providers@) == provider_list_spec(
                    ep,
                ) && refs_view(s.include_models@) == a && refs_view(s.exclude_models@) == b
                    && s.well_formed(),
            },
        }
    }
}

impl CatalogScope {
    /// Reads a scope from the four comma-separated lists and an optional scope
    /// file path. Giving both lists and a file is an error; a file (its path
    /// trimmed) is left for the caller to read.
    pub fn from_values(
        include_providers: Option<String>,
        exclude_providers: Option<String>,
        include_models: Option<String>,
        exclude_models: Option<String>,
        scope_file: Option<String>,
    ) -> (r: Result<ScopeSource, ScopeError>)
        ensures
            from_values_spec(
                r,
                opt_string_view(include_providers),
                opt_string_view(exclude_providers),
                opt_string_view(include_models),
                opt_string_view(exclude_models),
                opt_string_view(scope_file),
            ),
    {
        let ip = as_opt_str(&include_providers);
        let ep = as_opt_str(&exclude_providers);
        let im = as_opt_str(&include_models);
        let em = as_opt_str(&exclude_models);
        let sf = as_opt_str(&scope_file);
        let has_env_scope = has_value(ip) || has_value(ep) || has_value(im) || has_value(em);
        let has_file = has_value(sf);
        if has_env_scope && has_file {
            return Err(ScopeError::ModeConflict);
        }
        if has_file {
            match sf {
                Some(path) => {
                    return Ok(ScopeSource::File(trim(path)));
                },
                None => {},
            }
        }
        let include_providers = parse_provider_list(ip);
        let exclude_providers = parse_provider_list(ep);
        let include_models = match parse_model_list(im) {
            Ok(v) => v,
            Err(e) => {
                return Err(e);
            },
        };
        let exclude_models = match parse_model_list(em) {
            Ok(v) => v,
            Err(e) => {
                return Err(e);
            },
        };
        proof {
            lemma_dedup_no_duplicates(kept_trimmed(split_seq(ip->0@, ',')));
            lemma_dedup_no_duplicates(kept_trimmed(split_seq(ep->0@, ',')));
            assert(Seq::<Seq<char>>::empty().no_duplicates());
            if let Ok(k) = refs_of(split_seq(im->0@, ',')) {
                lemma_dedup_no_duplicates(k);
            }
            if let Ok(k) = refs_of(split_seq(em->0@, ',')) {
                lemma_dedup_no_duplicates(k);
            }
        }
        Ok(
            ScopeSource::Lists(
                CatalogScope { include_providers, exclude_providers, include_models, exclude_models },
            ),
        )
    }

    /// Builds a scope from the groups of a scope file: provider names are
    /// trimmed and kept once; model entries are trimmed, parsed and kept once.
    pub fn from_groups(
        include_providers: Vec<String>,
        exclude_providers: Vec<String>,
        include_models: Vec<String>,
        exclude_models: Vec<String>,
    ) -> (r: Result<CatalogScope, ScopeError>)
        ensures
            match refs_of(views(include_models@)) {
                Err(e) => r matches Err(x) && x@ == fault_invalid_ref(e),
                Ok(a) => match refs_of(views(exclude_models@)) {
                    Err(e) => r matches Err(x) && x@ == fault_invalid_ref(e),
                    Ok(b) => r matches Ok(s) && views(s.include_providers@) == dedup(
                        kept_trimmed(views(include_providers@)),
                    ) && views(s.exclude_providers@) == dedup(
                        kept_trimmed(views(exclude_providers@)),
                    ) && refs_view(s.include_models@) == dedup(a) && refs_view(s.exclude_models@)
                        == dedup(b) && s.well_formed(),
                },
            },
    {
        let ip = normalize_pieces(&include_providers);
        let ep = normalize_pieces(&exclude_providers);
        let im = match parse_ref_pieces(&include_models) {
            Ok(v) => v,
            Err(e) => {
                return Err(e);
            },
        };
        let em = match parse_ref_pieces(&exclude_models) {
            Ok(v) => v,
            Err(e) => {
                return Err(e);
            },
        };
        proof {
            lemma_dedup_no_duplicates(kept_trimmed(views(include_providers@)));
            lemma_dedup_no_duplicates(kept_trimmed(views(exclude_providers@)));
            lemma_dedup_no_duplicates(refs_of(views(include_models@))->Ok_0);
            lemma_dedup_no_duplicates(refs_of(views(exclude_models@))->Ok_0);
        }
        Ok(
            CatalogScope {
                include_providers: ip,
                exclude_providers: ep,
                include_models: im,
                exclude_models: em,
            },
        )
    }
}


/// The text of a scope error.
pub open spec fn fault_message(f: Fault) -> Seq<char> {
    if f.0 == 0 {
        "catalog scope is configured with both CATALOG_SCOPE_FILE and catalog scope env vars; remove either CATALOG_SCOPE_FILE or catalog scope env vars"@
    } else if f.0 == 1 {
        "catalog scope model reference '"@ + f.1 + "' must use provider/model-id"@
    } else if f.0 == 2 {
        "catalog scope references unknown provider '"@ + f.1 + "'"@
    } else if f.0 == 3 {
        "catalog scope references unknown model '"@ + f.1 + "/"@ + f.2 + "'"@
    } else {
        "catalog scope produced zero visible models"@
    }
}

impl ScopeError {
    /// The error's message.
    pub fn message(&self) -> (r: String)
        ensures
            r@ == fault_message(self@),
    {
        match self {
            ScopeError::ModeConflict => "catalog scope is configured with both CATALOG_SCOPE_FILE and catalog scope env vars; remove either CATALOG_SCOPE_FILE or catalog scope env vars".to_owned(),
            ScopeError::InvalidModelRef { value } => {
                let mut m = "catalog scope model reference '".to_owned();
                m.append(value.as_str());
                m.append("' must use provider/model-id");
                m
            },
            ScopeError::UnknownProvider { provider } => {
                let mut m = "catalog scope references unknown provider '".to_owned();
                m.append(provider.as_str());
                m.append("'");
                m
            },
            ScopeError::UnknownModel { provider, id } => {
                let mut m = "catalog scope references unknown model '".to_owned();
                m.append(provider.as_str());
                m.append("/");
                m.append(id.as_str());
                m.append("'");
                m
            },
            ScopeError::NoVisibleModels => "catalog scope produced zero visible models".to_owned(),
        }
    }
}


/// What a scope keeps of a catalog is consistent: every kept model comes
/// from the catalog and is not excluded, whatever includes it (an exclusion
/// wins); every kept provider still has a kept model; every kept alias still
/// points at one.
pub proof fn lemma_scope_consistent(
    scope: CatalogScope,
    providers: Seq<Provider>,
    models: Seq<Model>,
    aliases: Seq<(String, String)>,
)
    ensures
        forall|i: int|
            0 <= i < visible_models(scope, models).len() ==> {
                let m = #[trigger] visible_models(scope, models)[i];
                &&& models.contains(m)
                &&& scope.includes_spec(m.provider@, m.id@)
                &&& !scope.excludes_spec(m.provider@, m.id@)
            },
        forall|i: int|
            0 <= i < kept_providers(providers, visible_models(scope, models)).len()
                ==> model_providers(visible_models(scope, models)).contains(
                (#[trigger] kept_providers(providers, visible_models(scope, models))[i]).id@,
            ),
        forall|i: int|
            0 <= i < kept_aliases(aliases, visible_models(scope, models)).len() ==> model_ids(
                visible_models(scope, models),
            ).contains((#[trigger] kept_aliases(aliases, visible_models(scope, models))[i]).1@),
{
    broadcast use vstd::seq_lib::group_filter_ensures;
    let vis = visible_models(scope, models);
    assert forall|i: int| 0 <= i < vis.len() implies models.contains(#[trigger] vis[i]) by {
        lemma_filter_subset(models, |m: Model| scope.visible_spec(m), i);
    }
}

proof fn lemma_filter_subset<A>(s: Seq<A>, pred: spec_fn(A) -> bool, i: int)
    requires
        0 <= i < s.filter(pred).len(),
    ensures
        s.contains(s.filter(pred)[i]),
    decreases s.len(),
{
    reveal(Seq::filter);
    if s.len() > 0 {
        let p = s.drop_last().filter(pred);
        if pred(s.last()) && i == p.len() {
            assert(s.filter(pred)[i] == s.last());
            assert(s[s.len() - 1] == s.last());
        } else {
            assert(s.filter(pred)[i] == p[i]);
            lemma_filter_subset(s.drop_last(), pred, i);
            let k = choose|k: int| 0 <= k < s.drop_last().len() && s.drop_last()[k] == p[i];
            assert(s[k] == p[i]);
        }
    }
}

/// Whether a scope with these lists keeps a model of this provider and id:
/// when an include list is given, the provider is included or the model is,
/// and neither the provider nor the model is excluded.
pub open spec fn selected_by(scope: CatalogScope, provider: Seq<char>, id: Seq<char>) -> bool {
    &&& (scope.include_providers@.len() > 0 || scope.include_models@.len() > 0) ==> (views(
        scope.include_providers@,
    ).contains(provider) || refs_view(scope.include_models@).contains((provider, id)))
    &&& !views(scope.exclude_providers@).contains(provider)
    &&& !refs_view(scope.exclude_models@).contains((provider, id))
}

/// The models that applying a scope keeps are exactly the catalog's models
/// it selects, in catalog order: with an include list (of providers or of
/// models) a model is kept only when its provider or the model itself is
/// listed, and an excluded provider or model is never kept.
pub proof fn lemma_apply_keeps_selected_models(
    scope: CatalogScope,
    providers: Seq<Provider>,
    models: Seq<Model>,
    aliases: Seq<(String, String)>,
    r: Result<ScopedCatalog, ScopeError>,
)
    requires
        scope.disabled_spec() ==> (r matches Ok(c) && c.providers@ == providers && c.models@ == models
            && c.aliases@ == aliases),
        !scope.disabled_spec() ==> match scope.unknown_entry(providers, models) {
            Some(f) => r matches Err(e) && e@ == f,
            None => {
                let vis = visible_models(scope, models);
                if vis.len() == 0 {
                    r matches Err(e) && e@ == fault_no_visible()
                } else {
                    r matches Ok(c) && c.models@ == vis && c.providers@ == kept_providers(providers, vis)
                        && c.aliases@ == kept_aliases(aliases, vis)
                }
            },
        },
    ensures
        r matches Ok(c) ==> c.models@ == models.filter(|m: Model| selected_by(scope, m.provider@, m.id@)),
        r matches Ok(c) ==> forall|i: int|
            0 <= i < c.models@.len() ==> models.contains(#[trigger] c.models@[i]) && selected_by(
                scope,
                c.models@[i].provider@,
                c.models@[i].id@,
            ),
{
    broadcast use vstd::seq_lib::group_filter_ensures;
    let sel = |m: Model| selected_by(scope, m.provider@, m.id@);
    let vis_pred = |m: Model| scope.visible_spec(m);
    assert(sel =~= vis_pred);
    if scope.disabled_spec() {
        assert(views(scope.include_providers@) =~= Seq::<Seq<char>>::empty());
        assert(views(scope.exclude_providers@) =~= Seq::<Seq<char>>::empty());
        assert(refs_view(scope.exclude_models@) =~= Seq::<(Seq<char>, Seq<char>)>::empty());
        lemma_filter_all(models, sel);
    }
    if let Ok(c) = r {
        assert forall|i: int| 0 <= i < c.models@.len() implies models.contains(#[trigger] c.models@[i])
            && selected_by(scope, c.models@[i].provider@, c.models@[i].id@) by {
            lemma_filter_subset(models, sel, i);
            models.lemma_filter_pred(sel, i);
        }
    }
}

proof fn lemma_filter_all<A>(s: Seq<A>, pred: spec_fn(A) -> bool)
    requires
        forall|x: A| #[trigger] pred(x),
    ensures
        s.filter(pred) == s,
    decreases s.len(),
{
    reveal(Seq::filter);
    if s.len() > 0 {
        lemma_filter_all(s.drop_last(), pred);
        assert(s.drop_last().push(s.last()) =~= s);
    }
}

} // verus!
