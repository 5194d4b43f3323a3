//! Validation of a model request against the catalog: the model (or alias)
//! must exist, and its status, provider, parameters and modalities are
//! checked. Problems that make the request invalid are errors; the rest are
//! warnings.
use vstd::prelude::*;
use vstd::string::StringExecFns;
use crate::catalog::{Model, ModelStatus};
use crate::fuzzy::{DEFAULT_THRESHOLD, all_best, cand_keys, top_matches};
use crate::scope::contains_text;
use crate::sorting::is_sorted_order;
use crate::state::{AppState, alias_index, alias_named, first_where, has_id, last_where, model_index};
use crate::text::{trim_seq, views};

verus! {

#[derive(Debug)]
pub struct ValidateModalities {
    pub input: Option<Vec<String>>,
    pub output: Option<Vec<String>>,
}

/// A request to validate: a model id or alias, optionally the provider it is
/// meant for, the names of the parameters it sets and the modalities it uses.
#[derive(Debug)]
pub struct ValidateRequest {
    pub model: String,
    pub provider: Option<String>,
    pub parameters: Option<Vec<String>>,
    pub modalities: Option<ValidateModalities>,
}

#[derive(Debug)]
pub struct ValidationIssue {
    pub code: String,
    pub message: String,
    pub suggestions: Vec<String>,
    pub parameter: Option<String>,
    pub modality: Option<String>,
    pub direction: Option<String>,
}

#[derive(Debug)]
pub struct ValidateResponse {
    pub valid: bool,
    pub canonical_id: Option<String>,
    pub errors: Vec<ValidationIssue>,
    pub warnings: Vec<ValidationIssue>,
}

/// An issue as (code, message, suggestions, parameter, modality, direction).
pub type IssueV = (
    Seq<char>,
    Seq<char>,
    Seq<Seq<char>>,
    Option<Seq<char>>,
    Option<Seq<char>>,
    Option<Seq<char>>,
);

pub open spec fn opt_text(v: Option<String>) -> Option<Seq<char>> {
    match v {
        Some(s) => Some(s@),
        None => None,
    }
}

pub open spec fn issue_view(i: ValidationIssue) -> IssueV {
    (
        i.code@,
        i.message@,
        views(i.suggestions@),
        opt_text(i.parameter),
        opt_text(i.modality),
        opt_text(i.direction),
    )
}

pub open spec fn issues_view(v: Seq<ValidationIssue>) -> Seq<IssueV> {
    v.map_values(|i: ValidationIssue| issue_view(i))
}

/// The position of the model that a name denotes: the last model with that
/// id, else the last model with the id that the first alias of that name
/// stands for.
pub open spec fn resolve(st: AppState, name: Seq<char>) -> Option<int> {
    match last_where(st.models@, has_id(name)) {
        Some(i) => Some(i),
        None => match first_where(st.aliases@, alias_named(name)) {
            Some(a) => last_where(st.models@, has_id(st.aliases@[a].1@)),
            None => None,
        },
    }
}

/// The replacement of a model, when it names one.
pub open spec fn replacement_list(m: Model) -> Seq<Seq<char>> {
    match m.replacement {
        Some(r) => if r@.len() > 0 {
            seq![r@]
        } else {
            Seq::empty()
        },
        None => Seq::empty(),
    }
}

pub open spec fn status_errors(m: Model) -> Seq<IssueV> {
    if m.status == ModelStatus::Retired {
        seq![
            (
                "MODEL_RETIRED"@,
                "'"@ + m.id@ + "' has been retired and is no longer available"@,
                replacement_list(m),
                None,
                None,
                None,
            ),
        ]
    } else {
        Seq::empty()
    }
}

pub open spec fn status_warnings(m: Model) -> Seq<IssueV> {
    if m.status == ModelStatus::Deprecated {
        seq![("MODEL_DEPRECATED"@, "'"@ + m.id@ + "' is deprecated"@, replacement_list(m), None, None, None)]
    } else if m.status == ModelStatus::Deprecating {
        seq![
            (
                "MODEL_DEPRECATING"@,
                "'"@ + m.id@ + "' is being deprecated soon"@,
                replacement_list(m),
                None,
                None,
                None,
            ),
        ]
    } else {
        Seq::empty()
    }
}

pub open spec fn provider_errors(m: Model, provider: Option<Seq<char>>) -> Seq<IssueV> {
    match provider {
        Some(p) => if m.provider@ != p {
            seq![
                (
                    "PROVIDER_MISMATCH"@,
                    "'"@ + m.id@ + "' belongs to provider '"@ + m.provider@ + "', not '"@ + p + "'"@,
                    Seq::empty(),
                    None,
                    None,
                    None,
                ),
            ]
        } else {
            Seq::empty()
        },
        None => Seq::empty(),
    }
}

/// The error for each requested parameter that the model rejects.
pub open spec fn parameter_errors(m: Model, ps: Seq<Seq<char>>) -> Seq<IssueV>
    decreases ps.len(),
{
    if ps.len() == 0 {
        Seq::empty()
    } else {
        let prev = parameter_errors(m, ps.drop_last());
        let p = ps.last();
        if views(m.parameters.rejected@).contains(p) {
            prev.push(
                (
                    "PARAMETER_REJECTED"@,
                    "parameter '"@ + p + "' is rejected by this model"@,
                    Seq::empty(),
                    Some(p),
                    None,
                    None,
                ),
            )
        } else {
            prev
        }
    }
}

/// The warning for each requested parameter that the model does not reject
/// but deprecates or does not list as supported.
pub open spec fn parameter_warnings(m: Model, ps: Seq<Seq<char>>) -> Seq<IssueV>
    decreases ps.len(),
{
    if ps.len() == 0 {
        Seq::empty()
    } else {
        let prev = parameter_warnings(m, ps.drop_last());
        let p = ps.last();
        if views(m.parameters.rejected@).contains(p) {
            prev
        } else if views(m.parameters.deprecated_for_this_model@).contains(p) {
            prev.push(
                (
                    "PARAMETER_DEPRECATED"@,
                    "parameter '"@ + p + "' is deprecated for this model"@,
                    Seq::empty(),
                    Some(p),
                    None,
                    None,
                ),
            )
        } else if !views(m.parameters.supported@).contains(p) {
            prev.push(
                (
                    "PARAMETER_UNSUPPORTED"@,
                    "parameter '"@ + p + "' is not listed as supported by this model"@,
                    Seq::empty(),
                    Some(p),
                    None,
                    None,
                ),
            )
        } else {
            prev
        }
    }
}

/// The error for each requested modality that the model does not support in
/// that direction.
pub open spec fn modality_errors(
    supported: Seq<Seq<char>>,
    requested: Seq<Seq<char>>,
    lead: Seq<char>,
    direction: Seq<char>,
) -> Seq<IssueV>
    decreases requested.len(),
{
    if requested.len() == 0 {
        Seq::empty()
    } else {
        let prev = modality_errors(supported, requested.drop_last(), lead, direction);
        let r = requested.last();
        if supported.contains(r) {
            prev
        } else {
            prev.push(
                (
                    "MODALITY_UNSUPPORTED"@,
                    lead + r + "' is not supported by this model"@,
                    supported,
                    None,
                    Some(r),
                    Some(direction),
                ),
            )
        }
    }
}

pub open spec fn opt_list(v: Option<Vec<String>>) -> Seq<Seq<char>> {
    match v {
        Some(l) => views(l@),
        None => Seq::empty(),
    }
}

pub open spec fn requested_modality_errors(m: Model, req: Option<ValidateModalities>) -> Seq<IssueV> {
    match req {
        Some(r) => modality_errors(views(m.modalities.input@), opt_list(r.input), "input modality '"@, "input"@)
            + modality_errors(
            views(m.modalities.output@),
            opt_list(r.output),
            "output modality '"@,
            "output"@,
        ),
        None => Seq::empty(),
    }
}

/// Every error about a known model, in the order they are found.
pub open spec fn model_errors(m: Model, req: ValidateRequest) -> Seq<IssueV> {
    status_errors(m) + provider_errors(m, opt_text(req.provider)) + parameter_errors(m, opt_list(req.parameters))
        + requested_modality_errors(m, req.modalities)
}

/// Every warning about a known model, in the order they are found.
pub open spec fn model_warnings(m: Model, req: ValidateRequest) -> Seq<IssueV> {
    status_warnings(m) + parameter_warnings(m, opt_list(req.parameters))
}

/// `pre`, then `value`, then `post`.
fn message(pre: &str, value: &str, post: &str) -> (r: String)
    ensures
        r@ == pre@ + value@ + post@,
{
    let s = String::from_str(pre);
    let s = s.concat(value);
    s.concat(post)
}

fn copy_list(v: &Vec<String>) -> (r: Vec<String>)
    ensures
        views(r@) == views(v@),
{
    let mut out: Vec<String> = Vec::new();
    let mut i: usize = 0;
    while i < v.len()
        invariant
            i <= v.len(),
            views(out@) == views(v@.take(i as int)),
        decreases v.len() - i,
    {
        let ghost before = out@;
        out.push(v[i].clone());
        proof {
            assert(views(out@) =~= views(before).push(v@[i as int]@));
            assert(views(v@.take(i + 1)) =~= views(v@.take(i as int)).push(v@[i as int]@));
        }
        i = i + 1;
    }
    proof {
        assert(v@.take(v.len() as int) =~= v@);
    }
    out
}

fn replacement_of(m: &Model) -> (r: Vec<String>)
    ensures
        views(r@) == replacement_list(*m),
{
    let mut out: Vec<String> = Vec::new();
    match &m.replacement {
        Some(r) => if !r.as_str().is_empty() {
            out.push(r.clone());
            proof {
                assert(views(out@) =~= seq![r@]);
            }
        } else {
            proof {
                assert(views(out@) =~= Seq::<Seq<char>>::empty());
            }
        },
        None => {
            proof {
                assert(views(out@) =~= Seq::<Seq<char>>::empty());
            }
        },
    }
    out
}

fn issue(code: &str, message: String, suggestions: Vec<String>) -> (r: ValidationIssue)
    ensures
        issue_view(r) == (code@, message@, views(suggestions@), None::<Seq<char>>, None::<Seq<char>>, None::<Seq<char>>),
{
    ValidationIssue {
        code: code.to_owned(),
        message,
        suggestions,
        parameter: None,
        modality: None,
        direction: None,
    }
}


fn status_issues(m: &Model) -> (r: (Vec<ValidationIssue>, Vec<ValidationIssue>))
    ensures
        issues_view(r.0@) == status_errors(*m),
        issues_view(r.1@) == status_warnings(*m),
{
    let mut errors: Vec<ValidationIssue> = Vec::new();
    let mut warnings: Vec<ValidationIssue> = Vec::new();
    match m.status {
        ModelStatus::Retired => {
            let msg = message("'", m.id.as_str(), "' has been retired and is no longer available");
            errors.push(issue("MODEL_RETIRED", msg, replacement_of(m)));
        },
        ModelStatus::Deprecated => {
            let msg = message("'", m.id.as_str(), "' is deprecated");
            warnings.push(issue("MODEL_DEPRECATED", msg, replacement_of(m)));
        },
        ModelStatus::Deprecating => {
            let msg = message("'", m.id.as_str(), "' is being deprecated soon");
            warnings.push(issue("MODEL_DEPRECATING", msg, replacement_of(m)));
        },
        ModelStatus::Active => {},
    }
    proof {
        assert(issues_view(errors@) =~= status_errors(*m));
        assert(issues_view(warnings@) =~= status_warnings(*m));
    }
    (errors, warnings)
}

fn provider_issues(m: &Model, provider: &Option<String>) -> (r: Vec<ValidationIssue>)
    ensures
        issues_view(r@) == provider_errors(*m, opt_text(*provider)),
{
    let mut errors: Vec<ValidationIssue> = Vec::new();
    match provider {
        Some(p) => if m.provider != *p {
            let s = message("'", m.id.as_str(), "' belongs to provider '");
            let s = s.concat(m.provider.as_str());
            let s = s.concat("', not '");
            let s = s.concat(p.as_str());
            let s = s.concat("'");
            let none: Vec<String> = Vec::new();
            proof {
                assert(views(none@) =~= Seq::<Seq<char>>::empty());
            }
            errors.push(issue("PROVIDER_MISMATCH", s, none));
        },
        None => {},
    }
    proof {
        assert(issues_view(errors@) =~= provider_errors(*m, opt_text(*provider)));
    }
    errors
}

fn parameter_issue(code: &str, message: String, parameter: &String) -> (r: ValidationIssue)
    ensures
        issue_view(r) == (code@, message@, Seq::<Seq<char>>::empty(), Some(parameter@), None::<Seq<char>>, None::<Seq<char>>),
{
    let r = ValidationIssue {
        code: code.to_owned(),
        message,
        suggestions: Vec::new(),
        parameter: Some(parameter.clone()),
        modality: None,
        direction: None,
    };
    proof {
        assert(views(r.suggestions@) =~= Seq::<Seq<char>>::empty());
    }
    r
}

fn parameter_issues(m: &Model, params: &Vec<String>) -> (r: (Vec<ValidationIssue>, Vec<ValidationIssue>))
    ensures
        issues_view(r.0@) == parameter_errors(*m, views(params@)),
        issues_view(r.1@) == parameter_warnings(*m, views(params@)),
{
    let ghost ps = views(params@);
    let mut errors: Vec<ValidationIssue> = Vec::new();
    let mut warnings: Vec<ValidationIssue> = Vec::new();
    let mut i: usize = 0;
    proof {
        assert(ps.take(0) =~= Seq::<Seq<char>>::empty());
    }
    while i < params.len()
        invariant
            i <= params.len(),
            ps == views(params@),
            issues_view(errors@) == parameter_errors(*m, ps.take(i as int)),
            issues_view(warnings@) == parameter_warnings(*m, ps.take(i as int)),
        decreases params.len() - i,
    {
        let p = &params[i];
        proof {
            assert(ps.take(i + 1).drop_last() =~= ps.take(i as int));
            assert(ps.take(i + 1).last() == p@);
        }
        let ghost e0 = errors@;
        let ghost w0 = warnings@;
        if contains_text(&m.parameters.rejected, p) {
            let msg = message("parameter '", p.as_str(), "' is rejected by this model");
            errors.push(parameter_issue("PARAMETER_REJECTED", msg, p));
            proof {
                assert(issues_view(errors@) =~= issues_view(e0).push(issues_view(errors@).last()));
            }
        } else if contains_text(&m.parameters.deprecated_for_this_model, p) {
            let msg = message("parameter '", p.as_str(), "' is deprecated for this model");
            warnings.push(parameter_issue("PARAMETER_DEPRECATED", msg, p));
            proof {
                assert(issues_view(warnings@) =~= issues_view(w0).push(issues_view(warnings@).last()));
            }
        } else if !contains_text(&m.parameters.supported, p) {
            let msg = message("parameter '", p.as_str(), "' is not listed as supported by this model");
            warnings.push(parameter_issue("PARAMETER_UNSUPPORTED", msg, p));
            proof {
                assert(issues_view(warnings@) =~= issues_view(w0).push(issues_view(warnings@).last()));
            }
        }
        i = i + 1;
    }
    proof {
        assert(ps.take(ps.len() as int) =~= ps);
    }
    (errors, warnings)
}

fn modality_issues(supported: &Vec<String>, requested: &Vec<String>, lead: &str, direction: &str) -> (r: Vec<ValidationIssue>)
    ensures
        issues_view(r@) == modality_errors(views(supported@), views(requested@), lead@, direction@),
{
    let ghost rs = views(requested@);
    let mut errors: Vec<ValidationIssue> = Vec::new();
    let mut i: usize = 0;
    proof {
        assert(rs.take(0) =~= Seq::<Seq<char>>::empty());
    }
    while i < requested.len()
        invariant
            i <= requested.len(),
            rs == views(requested@),
            issues_view(errors@) == modality_errors(views(supported@), rs.take(i as int), lead@, direction@),
        decreases requested.len() - i,
    {
        let r = &requested[i];
        proof {
            assert(rs.take(i + 1).drop_last() =~= rs.take(i as int));
            assert(rs.take(i + 1).last() == r@);
        }
        if !contains_text(supported, r) {
            let ghost e0 = errors@;
            let msg = message(lead, r.as_str(), "' is not supported by this model");
            let item = ValidationIssue {
                code: "MODALITY_UNSUPPORTED".to_owned(),
                message: msg,
                suggestions: copy_list(supported),
                parameter: None,
                modality: Some(r.clone()),
                direction: Some(direction.to_owned()),
            };
            errors.push(item);
            proof {
                assert(issues_view(errors@) =~= issues_view(e0).push(issue_view(item)));
            }
        }
        i = i + 1;
    }
    proof {
        assert(rs.take(rs.len() as int) =~= rs);
    }
    errors
}

/// Moves the issues of `more` to the end of `dst`.
fn append_issues(dst: &mut Vec<ValidationIssue>, more: Vec<ValidationIssue>)
    ensures
        issues_view(final(dst)@) == issues_view(old(dst)@) + issues_view(more@),
{
    let ghost start = issues_view(dst@);
    let ghost mv = issues_view(more@);
    let mut rest = more;
    let mut taken: Vec<ValidationIssue> = Vec::new();
    while rest.len() > 0
        invariant
            issues_view(rest@) == mv.skip(mv.len() - rest.len()),
            rest.len() <= mv.len(),
            issues_view(dst@) == start + mv.take(mv.len() - rest.len()),
        decreases rest.len(),
    {
        let ghost r0 = rest@;
        let item = rest.remove(0);
        let ghost k = mv.len() - r0.len();
        proof {
            assert(item == r0[0]);
            assert(issues_view(r0)[0] == issue_view(r0[0]));
            assert(mv.skip(k)[0] == mv[k]);
            assert(issue_view(item) == mv[k]);
            assert(rest@ =~= r0.subrange(1, r0.len() as int));
            assert forall|t: int| 0 <= t < rest@.len() implies #[trigger] issues_view(rest@)[t] == mv.skip(k + 1)[t] by {
                assert(rest@[t] == r0[t + 1]);
                assert(issues_view(r0)[t + 1] == issue_view(r0[t + 1]));
                assert(mv.skip(k)[t + 1] == mv[k + 1 + t]);
            }
            assert(issues_view(rest@) =~= mv.skip(k + 1));
        }
        let ghost d0 = issues_view(dst@);
        dst.push(item);
        proof {
            assert(issues_view(dst@) =~= d0.push(issue_view(item)));
            assert(mv.take(k + 1) =~= mv.take(k).push(mv[k]));
        }
    }
    proof {
        assert(mv.take(mv.len() as int) =~= mv);
    }
}


/// The ids of the first `n` candidates of `b` in the order `p`.
pub open spec fn suggestion_ids(b: Seq<crate::fuzzy::CandV>, p: Seq<usize>, n: int) -> Seq<Seq<char>> {
    Seq::new(n as nat, |k: int| b[p[k] as int].2)
}

/// The model that the request names, by id or alias.
pub fn resolve_model(state: &AppState, name: &String) -> (r: Option<usize>)
    ensures
        match r {
            Some(i) => i < state.models.len() && resolve(*state, name@) == Some(i as int),
            None => resolve(*state, name@) is None,
        },
{
    match model_index(&state.models, name.as_str()) {
        Some(i) => Some(i),
        None => match alias_index(&state.aliases, name.as_str()) {
            Some(a) => model_index(&state.models, state.aliases[a].1.as_str()),
            None => None,
        },
    }
}

fn empty_list() -> (r: Vec<ValidationIssue>)
    ensures
        issues_view(r@) == Seq::<IssueV>::empty(),
{
    let r: Vec<ValidationIssue> = Vec::new();
    proof {
        assert(issues_view(r@) =~= Seq::<IssueV>::empty());
    }
    r
}

/// The errors and warnings about a known model.
fn model_issues(m: &Model, req: &ValidateRequest) -> (r: (Vec<ValidationIssue>, Vec<ValidationIssue>))
    ensures
        issues_view(r.0@) == model_errors(*m, *req),
        issues_view(r.1@) == model_warnings(*m, *req),
{
    let (mut errors, mut warnings) = status_issues(m);
    append_issues(&mut errors, provider_issues(m, &req.provider));
    match &req.parameters {
        Some(params) => {
            let (pe, pw) = parameter_issues(m, params);
            append_issues(&mut errors, pe);
            append_issues(&mut warnings, pw);
        },
        None => {
            append_issues(&mut errors, empty_list());
            append_issues(&mut warnings, empty_list());
            proof {
                assert(parameter_errors(*m, Seq::<Seq<char>>::empty()) =~= Seq::<IssueV>::empty());
                assert(parameter_warnings(*m, Seq::<Seq<char>>::empty()) =~= Seq::<IssueV>::empty());
            }
        },
    }
    match &req.modalities {
        Some(mods) => {
            let none: Vec<String> = Vec::new();
            proof {
                assert(views(none@) =~= Seq::<Seq<char>>::empty());
                assert(modality_errors(views(m.modalities.input@), Seq::<Seq<char>>::empty(), "input modality '"@, "input"@)
                    =~= Seq::<IssueV>::empty());
                assert(modality_errors(views(m.modalities.output@), Seq::<Seq<char>>::empty(), "output modality '"@, "output"@)
                    =~= Seq::<IssueV>::empty());
            }
            let input = match &mods.input {
                Some(l) => modality_issues(&m.modalities.input, l, "input modality '", "input"),
                None => modality_issues(&m.modalities.input, &none, "input modality '", "input"),
            };
            let output = match &mods.output {
                Some(l) => modality_issues(&m.modalities.output, l, "output modality '", "output"),
                None => modality_issues(&m.modalities.output, &none, "output modality '", "output"),
            };
            append_issues(&mut errors, input);
            append_issues(&mut errors, output);
        },
        None => {
            append_issues(&mut errors, empty_list());
        },
    }
    proof {
        assert(issues_view(errors@) =~= model_errors(*m, *req));
        assert(issues_view(warnings@) =~= model_warnings(*m, *req));
    }
    (errors, warnings)
}

/// Validates a request: an unknown model is one error with up to five
/// suggestions; a known one is checked for status, provider, parameters and
/// modalities. The request is valid when there is no error.
pub fn validate(state: &AppState, req: &ValidateRequest) -> (r: ValidateResponse)
    ensures
        r.valid == (r.errors@.len() == 0),
        match resolve(*state, req.model@) {
            Some(i) => {
                &&& r.canonical_id matches Some(c) && c@ == state.models@[i].id@
                &&& issues_view(r.errors@) == model_errors(state.models@[i], *req)
                &&& issues_view(r.warnings@) == model_warnings(state.models@[i], *req)
            },
            None => {
                let q = trim_seq(req.model@);
                &&& r.canonical_id is None
                &&& r.warnings@.len() == 0
                &&& r.errors@.len() == 1
                &&& issue_view(r.errors@[0]).0 == "MODEL_NOT_FOUND"@
                &&& issue_view(r.errors@[0]).1 == "'"@ + req.model@ + "' is not a known model id or alias"@
                &&& issue_view(r.errors@[0]).3 is None
                &&& issue_view(r.errors@[0]).4 is None
                &&& issue_view(r.errors@[0]).5 is None
                &&& (q.len() == 0 ==> issue_view(r.errors@[0]).2.len() == 0)
                &&& (q.len() > 0 ==> {
                    let b = all_best(*state, q, None, DEFAULT_THRESHOLD);
                    exists|p: Seq<usize>|
                        #[trigger] is_sorted_order(p, cand_keys(b), false) && issue_view(r.errors@[0]).2
                            == suggestion_ids(b, p, if 5 < b.len() { 5 } else { b.len() as int })
                })
            },
        },
{
    match resolve_model(state, &req.model) {
        Some(i) => {
            let m = &state.models[i];
            let (errors, warnings) = model_issues(m, req);
            let valid = errors.len() == 0;
            ValidateResponse { valid, canonical_id: Some(m.id.clone()), errors, warnings }
        },
        None => {
            let matches = top_matches(state, req.model.as_str(), 5, DEFAULT_THRESHOLD);
            let mut suggestions: Vec<String> = Vec::new();
            let mut k: usize = 0;
            while k < matches.len()
                invariant
                    k <= matches.len(),
                    suggestions@.len() == k,
                    forall|t: int| 0 <= t < k ==> (#[trigger] suggestions@[t])@ == matches@[t].0@,
                decreases matches.len() - k,
            {
                suggestions.push(matches[k].0.clone());
                k = k + 1;
            }
            proof {
                let q = trim_seq(req.model@);
                if q.len() > 0 {
                    let b = all_best(*state, q, None, DEFAULT_THRESHOLD);
                    let n = if 5 < b.len() { 5 } else { b.len() as int };
                    let p = choose|p: Seq<usize>|
                        is_sorted_order(p, cand_keys(b), false) && matches@.len() == n && forall|k: int|
                            0 <= k < matches@.len() ==> (#[trigger] matches@[k]).0@ == b[p[k] as int].2
                                && matches@[k].1 as int == b[p[k] as int].1;
                    assert(views(suggestions@) =~= suggestion_ids(b, p, n));
                }
            }
            let msg = message("'", req.model.as_str(), "' is not a known model id or alias");
            let mut errors: Vec<ValidationIssue> = Vec::new();
            errors.push(issue("MODEL_NOT_FOUND", msg, suggestions));
            ValidateResponse { valid: false, canonical_id: None, errors, warnings: Vec::new() }
        },
    }
}

} // verus!
