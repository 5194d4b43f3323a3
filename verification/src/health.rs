//! Catalog health: counts by status, missing pricing, stale verification
//! dates, and the models that need attention.
use vstd::prelude::*;
use crate::catalog::{Model, ModelStatus, status_name};
use crate::state::AppState;
use crate::text::{digits_value, is_digit, parse_uint, parse_unsigned, split, split_seq, views};

verus! {

/// A calendar date as the catalog writes it (`YYYY-MM-DD`).
#[derive(Clone, Copy, Debug, PartialEq, Eq, Structural)]
pub struct CatalogDate {
    pub year: i32,
    pub month: u8,
    pub day: u8,
}

pub open spec fn is_leap(y: int) -> bool {
    y % 4 == 0 && (y % 100 != 0 || y % 400 == 0)
}

pub open spec fn days_in_month(y: int, m: int) -> int {
    if m == 2 {
        if is_leap(y) {
            29
        } else {
            28
        }
    } else if m == 4 || m == 6 || m == 9 || m == 11 {
        30
    } else {
        31
    }
}

/// The dates that `time::Date::from_calendar_date` accepts: years from -9999
/// to 9999, months 1 to 12, and days within the month.
pub open spec fn valid_date(y: int, m: int, d: int) -> bool {
    &&& -9999 <= y <= 9999
    &&& 1 <= m <= 12
    &&& 1 <= d <= days_in_month(y, m)
}

/// `YYYY-MM-DD` with three decimal parts (a year that fits `i32`, a month
/// and a day that fit `u8`) that make a valid date.
pub open spec fn catalog_date(value: Seq<char>) -> Option<(int, int, int)> {
    let parts = split_seq(value, '-');
    if parts.len() != 3 {
        None
    } else {
        match (parse_unsigned(parts[0], 0x7fff_ffff), parse_unsigned(parts[1], 255), parse_unsigned(parts[2], 255)) {
            (Some(y), Some(m), Some(d)) => if valid_date(y as int, m as int, d as int) {
                Some((y as int, m as int, d as int))
            } else {
                None
            },
            _ => None,
        }
    }
}

pub open spec fn date_view(d: CatalogDate) -> (int, int, int) {
    (d.year as int, d.month as int, d.day as int)
}

/// Calendar order.
pub open spec fn date_less(a: (int, int, int), b: (int, int, int)) -> bool {
    a.0 < b.0 || (a.0 == b.0 && (a.1 < b.1 || (a.1 == b.1 && a.2 < b.2)))
}

fn leap(y: i32) -> (r: bool)
    ensures
        r == is_leap(y as int),
{
    y % 4 == 0 && (y % 100 != 0 || y % 400 == 0)
}

/// Parses a catalog date; `None` unless it is a valid `YYYY-MM-DD` date.
pub fn parse_catalog_date(value: &str) -> (r: Option<CatalogDate>)
    ensures
        match r {
            Some(d) => catalog_date(value@) == Some(date_view(d)),
            None => catalog_date(value@) is None,
        },
{
    let parts = split(value, '-');
    proof {
        assert(views(parts@).len() == parts.len());
    }
    if parts.len() != 3 {
        return None;
    }
    proof {
        assert(views(parts@)[0] == parts@[0]@);
        assert(views(parts@)[1] == parts@[1]@);
        assert(views(parts@)[2] == parts@[2]@);
    }
    let y = parse_uint(parts[0].as_str(), 0x7fff_ffff);
    let m = parse_uint(parts[1].as_str(), 255);
    let d = parse_uint(parts[2].as_str(), 255);
    match (y, m, d) {
        (Some(y), Some(m), Some(d)) => {
            let year = y as i32;
            let month = m as u8;
            let day = d as u8;
            if year > 9999 || month < 1 || month > 12 || day < 1 {
                return None;
            }
            let dim: u8 = if month == 2 {
                if leap(year) {
                    29
                } else {
                    28
                }
            } else if month == 4 || month == 6 || month == 9 || month == 11 {
                30
            } else {
                31
            };
            if day > dim {
                None
            } else {
                Some(CatalogDate { year, month, day })
            }
        },
        _ => None,
    }
}

/// Whether `a` is an earlier date than `b`.
pub fn date_before(a: CatalogDate, b: CatalogDate) -> (r: bool)
    ensures
        r == date_less(date_view(a), date_view(b)),
{
    a.year < b.year || (a.year == b.year && (a.month < b.month || (a.month == b.month && a.day < b.day)))
}

pub open spec fn digit_char(n: int) -> char {
    (48 + n) as char
}

/// The date as `time::Date` displays it for the years a catalog date can
/// hold: a four-digit year, a two-digit month and day.
pub open spec fn date_text(d: (int, int, int)) -> Seq<char> {
    seq![
        digit_char(d.0 / 1000),
        digit_char(d.0 / 100 % 10),
        digit_char(d.0 / 10 % 10),
        digit_char(d.0 % 10),
        '-',
        digit_char(d.1 / 10),
        digit_char(d.1 % 10),
        '-',
        digit_char(d.2 / 10),
        digit_char(d.2 % 10),
    ]
}

fn digit(n: u32) -> (r: char)
    requires
        n < 10,
    ensures
        r == digit_char(n as int),
{
    let b: u8 = (48 + n) as u8;
    b as char
}

/// Formats a parsed catalog date.
pub fn format_date(d: CatalogDate) -> (r: String)
    requires
        0 <= d.year <= 9999,
        1 <= d.month <= 12,
        1 <= d.day <= 31,
    ensures
        r@ == date_text(date_view(d)),
{
    let y = d.year as u32;
    let m = d.month as u32;
    let dd = d.day as u32;
    let mut v: Vec<char> = Vec::new();
    v.push(digit(y / 1000));
    v.push(digit(y / 100 % 10));
    v.push(digit(y / 10 % 10));
    v.push(digit(y % 10));
    v.push('-');
    v.push(digit(m / 10));
    v.push(digit(m % 10));
    v.push('-');
    v.push(digit(dd / 10));
    v.push(digit(dd % 10));
    proof {
        assert(v@ =~= date_text(date_view(d)));
    }
    crate::text::from_chars(v)
}


/// How many models have this status.
pub open spec fn status_count(ms: Seq<Model>, st: ModelStatus) -> nat
    decreases ms.len(),
{
    if ms.len() == 0 {
        0
    } else {
        status_count(ms.drop_last(), st) + if ms.last().status == st {
            1nat
        } else {
            0nat
        }
    }
}

/// The statuses in the order of their names.
pub open spec fn statuses_by_name() -> Seq<ModelStatus> {
    seq![ModelStatus::Active, ModelStatus::Deprecated, ModelStatus::Deprecating, ModelStatus::Retired]
}

/// The count of each status that occurs, in the order of the status names.
pub open spec fn status_counts_spec(ms: Seq<Model>) -> Seq<(Seq<char>, nat)> {
    statuses_by_name().filter(|st: ModelStatus| status_count(ms, st) > 0).map_values(
        |st: ModelStatus| (status_name(st), status_count(ms, st)),
    )
}

/// Whether a model's verification date is missing, unreadable, or before
/// `stale_before`.
pub open spec fn is_stale(m: Model, stale_before: (int, int, int)) -> bool {
    match catalog_date(m.last_verified@) {
        Some(d) => date_less(d, stale_before),
        None => true,
    }
}

pub open spec fn stale_count(ms: Seq<Model>, sb: (int, int, int)) -> nat
    decreases ms.len(),
{
    if ms.len() == 0 {
        0
    } else {
        stale_count(ms.drop_last(), sb) + if is_stale(ms.last(), sb) {
            1nat
        } else {
            0nat
        }
    }
}

/// The earliest (`earliest`) or latest readable verification date.
pub open spec fn extreme_date(ms: Seq<Model>, earliest: bool) -> Option<(int, int, int)>
    decreases ms.len(),
{
    if ms.len() == 0 {
        None
    } else {
        let prev = extreme_date(ms.drop_last(), earliest);
        match catalog_date(ms.last().last_verified@) {
            None => prev,
            Some(d) => match prev {
                None => Some(d),
                Some(p) => if (earliest && date_less(d, p)) || (!earliest && date_less(p, d)) {
                    Some(d)
                } else {
                    Some(p)
                },
            },
        }
    }
}

#[derive(Debug)]
pub struct CatalogHealth {
    pub total_models: usize,
    pub total_providers: usize,
    pub total_aliases: usize,
    pub status_counts: Vec<(String, usize)>,
    pub missing_pricing_count: usize,
    pub stale_verification_count: usize,
    pub oldest_last_verified: Option<String>,
    pub newest_last_verified: Option<String>,
    pub etag: String,
}

pub open spec fn opt_date_text(d: Option<(int, int, int)>) -> Option<Seq<char>> {
    match d {
        Some(x) => Some(date_text(x)),
        None => None,
    }
}

pub open spec fn opt_string_view(v: Option<String>) -> Option<Seq<char>> {
    match v {
        Some(s) => Some(s@),
        None => None,
    }
}

fn count_status(models: &Vec<Model>, st: ModelStatus) -> (r: usize)
    ensures
        r == status_count(models@, st),
{
    let ghost ms = models@;
    let mut n: usize = 0;
    let mut i: usize = 0;
    proof {
        assert(ms.take(0) =~= Seq::<Model>::empty());
    }
    while i < models.len()
        invariant
            i <= models.len(),
            ms == models@,
            n == status_count(ms.take(i as int), st),
            n <= i,
        decreases models.len() - i,
    {
        proof {
            assert(ms.take(i + 1).drop_last() =~= ms.take(i as int));
        }
        if models[i].status == st {
            n = n + 1;
        }
        i = i + 1;
    }
    proof {
        assert(ms.take(ms.len() as int) =~= ms);
    }
    n
}

proof fn lemma_date_range(v: Seq<char>)
    ensures
        catalog_date(v) matches Some(d) ==> 0 <= d.0 <= 9999 && 1 <= d.1 <= 12 && 1 <= d.2 <= 31,
{
}

/// The health summary of the catalog; dates before `stale_before` count as
/// stale.
pub fn health(state: &AppState, stale_before: CatalogDate) -> (r: CatalogHealth)
    ensures
        r.total_models == state.models.len(),
        r.total_providers == state.providers.len(),
        r.total_aliases == state.aliases.len(),
        crate::stats::counts_view(r.status_counts@) == status_counts_spec(state.models@),
        r.missing_pricing_count == crate::stats::unpriced_count(state.models@),
        r.stale_verification_count == stale_count(state.models@, date_view(stale_before)),
        opt_string_view(r.oldest_last_verified) == opt_date_text(extreme_date(state.models@, true)),
        opt_string_view(r.newest_last_verified) == opt_date_text(extreme_date(state.models@, false)),
        r.etag@ == state.etag@,
{
    let ghost ms = state.models@;
    let ghost sb = date_view(stale_before);
    let mut missing: usize = 0;
    let mut stale: usize = 0;
    let mut oldest: Option<CatalogDate> = None;
    let mut newest: Option<CatalogDate> = None;
    let mut i: usize = 0;
    proof {
        assert(ms.take(0) =~= Seq::<Model>::empty());
    }
    while i < state.models.len()
        invariant
            i <= state.models.len(),
            ms == state.models@,
            sb == date_view(stale_before),
            missing == crate::stats::unpriced_count(ms.take(i as int)),
            stale == stale_count(ms.take(i as int), sb),
            missing <= i,
            stale <= i,
            match oldest {
                Some(d) => extreme_date(ms.take(i as int), true) == Some(date_view(d)),
                None => extreme_date(ms.take(i as int), true) is None,
            },
            match newest {
                Some(d) => extreme_date(ms.take(i as int), false) == Some(date_view(d)),
                None => extreme_date(ms.take(i as int), false) is None,
            },
        decreases state.models.len() - i,
    {
        let m = &state.models[i];
        proof {
            assert(ms.take(i + 1).drop_last() =~= ms.take(i as int));
            assert(ms.take(i + 1).last() == *m);
        }
        if m.pricing.is_none() {
            missing = missing + 1;
        }
        match parse_catalog_date(m.last_verified.as_str()) {
            Some(d) => {
                if date_before(d, stale_before) {
                    stale = stale + 1;
                }
                oldest = match oldest {
                    None => Some(d),
                    Some(p) => if date_before(d, p) {
                        Some(d)
                    } else {
                        Some(p)
                    },
                };
                newest = match newest {
                    None => Some(d),
                    Some(p) => if date_before(p, d) {
                        Some(d)
                    } else {
                        Some(p)
                    },
                };
            },
            None => {
                stale = stale + 1;
            },
        }
        i = i + 1;
    }
    proof {
        assert(ms.take(ms.len() as int) =~= ms);
    }
    let mut counts: Vec<(String, usize)> = Vec::new();
    let statuses = [ModelStatus::Active, ModelStatus::Deprecated, ModelStatus::Deprecating, ModelStatus::Retired];
    let ghost names = statuses_by_name();
    let mut k: usize = 0;
    proof {
        assert(statuses@ =~= names);
        assert(names.take(0).filter(|st: ModelStatus| status_count(ms, st) > 0) =~= Seq::<ModelStatus>::empty());
    }
    while k < 4
        invariant
            k <= 4,
            statuses@ == names,
            names == statuses_by_name(),
            ms == state.models@,
            crate::stats::counts_view(counts@) == names.take(k as int).filter(|st: ModelStatus| status_count(ms, st) > 0).map_values(
                |st: ModelStatus| (status_name(st), status_count(ms, st)),
            ),
        decreases 4 - k,
    {
        let st = statuses[k];
        let n = count_status(&state.models, st);
        let ghost before = counts@;
        proof {
            reveal(Seq::filter);
            assert(names.take(k + 1).drop_last() =~= names.take(k as int));
            assert(names.take(k + 1).last() == st);
        }
        if n > 0 {
            counts.push((st.as_str().to_owned(), n));
            proof {
                assert(crate::stats::counts_view(counts@) =~= crate::stats::counts_view(before).push((status_name(st), n as nat)));
            }
        }
        proof {
            assert(crate::stats::counts_view(counts@) =~= names.take(k + 1).filter(|st: ModelStatus| status_count(ms, st) > 0).map_values(
                |st: ModelStatus| (status_name(st), status_count(ms, st)),
            ));
        }
        k = k + 1;
    }
    proof {
        assert(names.take(4) =~= names);
    }
    let oldest_text = match oldest {
        Some(d) => {
            proof {
                lemma_extreme_date_valid(ms, true);
            }
            Some(format_date(d))
        },
        None => None,
    };
    let newest_text = match newest {
        Some(d) => {
            proof {
                lemma_extreme_date_valid(ms, false);
            }
            Some(format_date(d))
        },
        None => None,
    };
    CatalogHealth {
        total_models: state.models.len(),
        total_providers: state.providers.len(),
        total_aliases: state.aliases.len(),
        status_counts: counts,
        missing_pricing_count: missing,
        stale_verification_count: stale,
        oldest_last_verified: oldest_text,
        newest_last_verified: newest_text,
        etag: state.etag.clone(),
    }
}

proof fn lemma_extreme_date_valid(ms: Seq<Model>, earliest: bool)
    ensures
        extreme_date(ms, earliest) matches Some(d) ==> 0 <= d.0 <= 9999 && 1 <= d.1 <= 12 && 1 <= d.2 <= 31,
    decreases ms.len(),
{
    if ms.len() > 0 {
        lemma_extreme_date_valid(ms.drop_last(), earliest);
        lemma_date_range(ms.last().last_verified@);
    }
}


/// A model that needs attention, as the issue listing shows it.
#[derive(Debug)]
pub struct ModelIssue {
    pub provider: String,
    pub id: String,
    pub display_name: String,
    pub status: String,
    pub last_verified: String,
    pub replacement: Option<String>,
}

pub type ModelIssueV = (Seq<char>, Seq<char>, Seq<char>, Seq<char>, Seq<char>, Option<Seq<char>>);

pub open spec fn model_issue_view(i: ModelIssue) -> ModelIssueV {
    (i.provider@, i.id@, i.display_name@, i.status@, i.last_verified@, opt_string_view(i.replacement))
}

pub open spec fn issue_of(m: Model) -> ModelIssueV {
    (m.provider@, m.id@, m.display_name@, status_name(m.status), m.last_verified@, opt_string_view(m.replacement))
}

pub open spec fn model_issues_view(v: Seq<ModelIssue>) -> Seq<ModelIssueV> {
    v.map_values(|i: ModelIssue| model_issue_view(i))
}

/// The groups of the issue listing: 0 stale, 1 missing pricing,
/// 2 deprecated, 3 retired, 4 deprecated or retired without a replacement.
pub open spec fn in_group(m: Model, group: int, sb: (int, int, int)) -> bool {
    if group == 0 {
        is_stale(m, sb)
    } else if group == 1 {
        m.pricing is None
    } else if group == 2 {
        m.status == ModelStatus::Deprecated
    } else if group == 3 {
        m.status == ModelStatus::Retired
    } else {
        (m.status == ModelStatus::Deprecated || m.status == ModelStatus::Retired) && m.replacement is None
    }
}

/// The issues of the models in a group, in catalog order.
pub open spec fn group_issues(ms: Seq<Model>, group: int, sb: (int, int, int)) -> Seq<ModelIssueV>
    decreases ms.len(),
{
    if ms.len() == 0 {
        Seq::empty()
    } else {
        let p = group_issues(ms.drop_last(), group, sb);
        if in_group(ms.last(), group, sb) {
            p.push(issue_of(ms.last()))
        } else {
            p
        }
    }
}

#[derive(Debug)]
pub struct CatalogIssues {
    pub stale_models: Vec<ModelIssue>,
    pub missing_pricing_models: Vec<ModelIssue>,
    pub deprecated_models: Vec<ModelIssue>,
    pub retired_models: Vec<ModelIssue>,
    pub replacement_gaps: Vec<ModelIssue>,
}

fn copy_opt(v: &Option<String>) -> (r: Option<String>)
    ensures
        opt_string_view(r) == opt_string_view(*v),
{
    match v {
        Some(s) => Some(s.clone()),
        None => None,
    }
}

/// The issue entry of a model.
pub fn model_issue(m: &Model) -> (r: ModelIssue)
    ensures
        model_issue_view(r) == issue_of(*m),
{
    ModelIssue {
        provider: m.provider.clone(),
        id: m.id.clone(),
        display_name: m.display_name.clone(),
        status: m.status.as_str().to_owned(),
        last_verified: m.last_verified.clone(),
        replacement: copy_opt(&m.replacement),
    }
}

fn push_issue(v: &mut Vec<ModelIssue>, m: &Model)
    ensures
        model_issues_view(final(v)@) == model_issues_view(old(v)@).push(issue_of(*m)),
{
    let ghost before = v@;
    let i = model_issue(m);
    v.push(i);
    proof {
        assert(model_issues_view(v@) =~= model_issues_view(before).push(issue_of(*m)));
    }
}

/// The models that need attention, group by group; dates before
/// `stale_before` count as stale.
pub fn issues(state: &AppState, stale_before: CatalogDate) -> (r: CatalogIssues)
    ensures
        model_issues_view(r.stale_models@) == group_issues(state.models@, 0, date_view(stale_before)),
        model_issues_view(r.missing_pricing_models@) == group_issues(state.models@, 1, date_view(stale_before)),
        model_issues_view(r.deprecated_models@) == group_issues(state.models@, 2, date_view(stale_before)),
        model_issues_view(r.retired_models@) == group_issues(state.models@, 3, date_view(stale_before)),
        model_issues_view(r.replacement_gaps@) == group_issues(state.models@, 4, date_view(stale_before)),
{
    let ghost ms = state.models@;
    let ghost sb = date_view(stale_before);
    let mut stale: Vec<ModelIssue> = Vec::new();
    let mut missing: Vec<ModelIssue> = Vec::new();
    let mut deprecated: Vec<ModelIssue> = Vec::new();
    let mut retired: Vec<ModelIssue> = Vec::new();
    let mut gaps: Vec<ModelIssue> = Vec::new();
    let mut i: usize = 0;
    proof {
        assert(ms.take(0) =~= Seq::<Model>::empty());
        assert(model_issues_view(stale@) =~= Seq::<ModelIssueV>::empty());
        assert(model_issues_view(missing@) =~= Seq::<ModelIssueV>::empty());
        assert(model_issues_view(deprecated@) =~= Seq::<ModelIssueV>::empty());
        assert(model_issues_view(retired@) =~= Seq::<ModelIssueV>::empty());
        assert(model_issues_view(gaps@) =~= Seq::<ModelIssueV>::empty());
    }
    while i < state.models.len()
        invariant
            i <= state.models.len(),
            ms == state.models@,
            sb == date_view(stale_before),
            model_issues_view(stale@) == group_issues(ms.take(i as int), 0, sb),
            model_issues_view(missing@) == group_issues(ms.take(i as int), 1, sb),
            model_issues_view(deprecated@) == group_issues(ms.take(i as int), 2, sb),
            model_issues_view(retired@) == group_issues(ms.take(i as int), 3, sb),
            model_issues_view(gaps@) == group_issues(ms.take(i as int), 4, sb),
        decreases state.models.len() - i,
    {
        let m = &state.models[i];
        proof {
            assert(ms.take(i + 1).drop_last() =~= ms.take(i as int));
            assert(ms.take(i + 1).last() == *m);
        }
        let is_stale_now = match parse_catalog_date(m.last_verified.as_str()) {
            Some(d) => date_before(d, stale_before),
            None => true,
        };
        if is_stale_now {
            push_issue(&mut stale, m);
        }
        if m.pricing.is_none() {
            push_issue(&mut missing, m);
        }
        let is_deprecated = m.status == ModelStatus::Deprecated;
        let is_retired = m.status == ModelStatus::Retired;
        if is_deprecated {
            push_issue(&mut deprecated, m);
        }
        if is_retired {
            push_issue(&mut retired, m);
        }
        if (is_deprecated || is_retired) && m.replacement.is_none() {
            push_issue(&mut gaps, m);
        }
        i = i + 1;
    }
    proof {
        assert(ms.take(ms.len() as int) =~= ms);
    }
    CatalogIssues {
        stale_models: stale,
        missing_pricing_models: missing,
        deprecated_models: deprecated,
        retired_models: retired,
        replacement_gaps: gaps,
    }
}

} // verus!
