//! What the spiders read of an HTML page, as the `scraper` crate parses it:
//! the texts of some elements and the targets of the links, in document
//! order.
use vstd::prelude::*;
use scraper::{Html, Selector};
use crate::model_ids::JsonValue;
use crate::spiders::PageParts;
use crate::text::views;
use crate::cards::{CardParts, Section};

verus! {

/// The text of every `<code>` and `<pre>` element of the document.
pub uninterp spec fn html_code_texts(html: Seq<char>) -> Seq<Seq<char>>;

/// The `id` attribute, the `type` attribute and the text of every
/// `<script>` element of the document.
pub uninterp spec fn html_scripts(html: Seq<char>) -> Seq<(Option<Seq<char>>, Option<Seq<char>>, Seq<char>)>;

/// The `href` attribute of every `<a href>` element of the document.
pub uninterp spec fn html_hrefs(html: Seq<char>) -> Seq<Option<Seq<char>>>;

/// The text of every `<h1>` element of the document.
pub uninterp spec fn html_h1_texts(html: Seq<char>) -> Seq<Seq<char>>;

/// The text of every `<button>` element of the document.
pub uninterp spec fn html_button_texts(html: Seq<char>) -> Seq<Seq<char>>;

/// For every `<section>` element of the document, the texts of its `<b>`
/// elements and the texts of its `<p>` elements.
pub uninterp spec fn html_sections(html: Seq<char>) -> Seq<(Seq<Seq<char>>, Seq<Seq<char>>)>;

/// For every `<table>` element of the document, the texts of its
/// `thead th` cells.
pub uninterp spec fn html_table_heads(html: Seq<char>) -> Seq<Seq<Seq<char>>>;

/// For every `<table>` element of the document, and each of its `tbody tr`
/// rows, the texts of the row's `td` cells.
pub uninterp spec fn html_table_rows(html: Seq<char>) -> Seq<Seq<Seq<Seq<char>>>>;

pub open spec fn opt_view(v: Option<String>) -> Option<Seq<char>> {
    match v {
        Some(s) => Some(s@),
        None => None,
    }
}

pub open spec fn script_views(v: Seq<(Option<String>, Option<String>, String)>) -> Seq<
    (Option<Seq<char>>, Option<Seq<char>>, Seq<char>),
> {
    v.map_values(|e: (Option<String>, Option<String>, String)| (opt_view(e.0), opt_view(e.1), e.2@))
}

pub open spec fn opt_views(v: Seq<Option<String>>) -> Seq<Option<Seq<char>>> {
    v.map_values(|e: Option<String>| opt_view(e))
}

pub open spec fn section_views(v: Seq<(Vec<String>, Vec<String>)>) -> Seq<
    (Seq<Seq<char>>, Seq<Seq<char>>),
> {
    v.map_values(|e: (Vec<String>, Vec<String>)| (views(e.0@), views(e.1@)))
}

pub open spec fn rows_view(rows: Seq<Vec<String>>) -> Seq<Seq<Seq<char>>> {
    rows.map_values(|r: Vec<String>| views(r@))
}


/// `scraper`'s `Html::parse_document`, then the text of each `code, pre`
/// match. The contract only names the result, as a function of the page.
#[verifier::external_body]
fn code_texts(html: &str) -> (r: Vec<String>)
    ensures
        views(r@) == html_code_texts(html@),
{
    let doc = Html::parse_document(html);
    let sel = Selector::parse("code, pre").unwrap();
    let mut out = Vec::new();
    for el in doc.select(&sel) {
        out.push(el.text().collect::<String>());
    }
    out
}

/// `scraper`'s `Html::parse_document`, then the `id`, `type` and text of each
/// `script` match. The contract only names the result, as a function of the
/// page.
#[verifier::external_body]
fn scripts(html: &str) -> (r: Vec<(Option<String>, Option<String>, String)>)
    ensures
        script_views(r@) == html_scripts(html@),
{
    let doc = Html::parse_document(html);
    let sel = Selector::parse("script").unwrap();
    let mut out = Vec::new();
    for el in doc.select(&sel) {
        let id = el.value().attr("id").map(|s| s.to_owned());
        let ty = el.value().attr("type").map(|s| s.to_owned());
        out.push((id, ty, el.text().collect::<String>()));
    }
    out
}

/// `scraper`'s `Html::parse_document`, then the `href` of each `a[href]`
/// match. The contract only names the result, as a function of the page.
#[verifier::external_body]
fn hrefs(html: &str) -> (r: Vec<Option<String>>)
    ensures
        opt_views(r@) == html_hrefs(html@),
{
    let doc = Html::parse_document(html);
    let sel = Selector::parse("a[href]").unwrap();
    let mut out = Vec::new();
    for el in doc.select(&sel) {
        out.push(el.value().attr("href").map(|s| s.to_owned()));
    }
    out
}

/// `scraper`'s `Html::parse_document`, then the text of each `h1` match. The
/// contract only names the result, as a function of the page.
#[verifier::external_body]
fn h1_texts(html: &str) -> (r: Vec<String>)
    ensures
        views(r@) == html_h1_texts(html@),
{
    let doc = Html::parse_document(html);
    let sel = Selector::parse("h1").unwrap();
    let mut out = Vec::new();
    for el in doc.select(&sel) {
        out.push(el.text().collect::<String>());
    }
    out
}

/// `scraper`'s `Html::parse_document`, then the text of each `button` match.
/// The contract only names the result, as a function of the page.
#[verifier::external_body]
fn button_texts(html: &str) -> (r: Vec<String>)
    ensures
        views(r@) == html_button_texts(html@),
{
    let doc = Html::parse_document(html);
    let sel = Selector::parse("button").unwrap();
    let mut out = Vec::new();
    for el in doc.select(&sel) {
        out.push(el.text().collect::<String>());
    }
    out
}

/// `scraper`'s `Html::parse_document`, then for each `section` match the
/// texts of its `b` matches and of its `p` matches. The contract only names
/// the result, as a function of the page.
#[verifier::external_body]
fn sections(html: &str) -> (r: Vec<(Vec<String>, Vec<String>)>)
    ensures
        section_views(r@) == html_sections(html@),
{
    let doc = Html::parse_document(html);
    let (s_sel, b_sel, p_sel) = (Selector::parse("section").unwrap(), Selector::parse("b").unwrap(), Selector::parse("p").unwrap());
    let mut out = Vec::new();
    for s in doc.select(&s_sel) {
        let b = s.select(&b_sel).map(|e| e.text().collect::<String>()).collect();
        let p = s.select(&p_sel).map(|e| e.text().collect::<String>()).collect();
        out.push((b, p));
    }
    out
}

/// `scraper`'s `Html::parse_document`, then for each `table` match the texts
/// of its `thead th` matches. The contract only names the result, as a
/// function of the page.
#[verifier::external_body]
fn table_heads(html: &str) -> (r: Vec<Vec<String>>)
    ensures
        r@.map_values(|h: Vec<String>| views(h@)) == html_table_heads(html@),
{
    let doc = Html::parse_document(html);
    let (t_sel, th_sel) = (Selector::parse("table").unwrap(), Selector::parse("thead th").unwrap());
    let mut out = Vec::new();
    for t in doc.select(&t_sel) {
        let mut heads = Vec::new();
        for e in t.select(&th_sel) {
            heads.push(e.text().collect::<String>());
        }
        out.push(heads);
    }
    out
}

/// `scraper`'s `Html::parse_document`, then for each `table` match and each of
/// its `tbody tr` matches, the texts of the row's `td` matches. The contract
/// only names the result, as a function of the page.
#[verifier::external_body]
fn table_rows(html: &str) -> (r: Vec<Vec<Vec<String>>>)
    ensures
        r@.map_values(|t: Vec<Vec<String>>| rows_view(t@)) == html_table_rows(html@),
{
    let doc = Html::parse_document(html);
    let (t_sel, tr_sel, td_sel) = (Selector::parse("table").unwrap(), Selector::parse("tbody tr").unwrap(), Selector::parse("td").unwrap());
    let mut out = Vec::new();
    for t in doc.select(&t_sel) {
        let mut rows = Vec::new();
        for r in t.select(&tr_sel) {
            let mut cells = Vec::new();
            for e in r.select(&td_sel) {
                cells.push(e.text().collect::<String>());
            }
            rows.push(cells);
        }
        out.push(rows);
    }
    out
}

/// The values that are present, in order.
pub open spec fn present(v: Seq<Option<Seq<char>>>) -> Seq<Seq<char>>
    decreases v.len(),
{
    if v.len() == 0 {
        Seq::empty()
    } else {
        match v.last() {
            Some(x) => present(v.drop_last()).push(x),
            None => present(v.drop_last()),
        }
    }
}

/// The link targets of a page, in document order.
pub fn page_links(html: &str) -> (r: Vec<String>)
    ensures
        views(r@) == present(html_hrefs(html@)),
{
    let all = hrefs(html);
    let ghost av = opt_views(all@);
    let mut out: Vec<String> = Vec::new();
    let mut i: usize = 0;
    while i < all.len()
        invariant
            i <= all.len(),
            av == opt_views(all@),
            views(out@) == present(av.take(i as int)),
        decreases all.len() - i,
    {
        proof {
            assert(av.take(i + 1).drop_last() =~= av.take(i as int));
            assert(av.take(i + 1).last() == opt_view(all@[i as int]));
        }
        match &all[i] {
            Some(h) => {
                let ghost before = out@;
                out.push(h.clone());
                proof {
                    assert(views(out@) =~= views(before).push(h@));
                }
            },
            None => {},
        }
        i = i + 1;
    }
    proof {
        assert(av.take(all.len() as int) =~= av);
    }
    out
}

/// A script that holds a JSON document: a Next.js data block or a
/// `type="application/json"` script, with some text.
pub open spec fn is_json_script(s: (Option<Seq<char>>, Option<Seq<char>>, Seq<char>)) -> bool {
    (s.0 == Some("__NEXT_DATA__"@) || s.1 == Some("application/json"@)) && s.2.len() > 0
}

pub open spec fn json_texts(v: Seq<(Option<Seq<char>>, Option<Seq<char>>, Seq<char>)>) -> Seq<Seq<char>>
    decreases v.len(),
{
    if v.len() == 0 {
        Seq::empty()
    } else if is_json_script(v.last()) {
        json_texts(v.drop_last()).push(v.last().2)
    } else {
        json_texts(v.drop_last())
    }
}

fn is_text(v: &Option<String>, lit: &str) -> (r: bool)
    ensures
        r == (opt_view(*v) == Some(lit@)),
{
    match v {
        Some(s) => {
            let l = lit.to_owned();
            *s == l
        },
        None => false,
    }
}

/// The texts of the page's JSON scripts, in document order; each is a JSON
/// document for the caller to parse.
pub fn json_script_texts(html: &str) -> (r: Vec<String>)
    ensures
        views(r@) == json_texts(html_scripts(html@)),
{
    let all = scripts(html);
    let ghost sv = script_views(all@);
    let mut out: Vec<String> = Vec::new();
    let mut i: usize = 0;
    while i < all.len()
        invariant
            i <= all.len(),
            sv == script_views(all@),
            views(out@) == json_texts(sv.take(i as int)),
        decreases all.len() - i,
    {
        let (id, ty, text) = &all[i];
        proof {
            assert(sv.take(i + 1).drop_last() =~= sv.take(i as int));
            assert(sv.take(i + 1).last() == (opt_view(*id), opt_view(*ty), text@));
        }
        if (is_text(id, "__NEXT_DATA__") || is_text(ty, "application/json")) && text.as_str().unicode_len() > 0 {
            let ghost before = out@;
            out.push(text.clone());
            proof {
                assert(views(out@) =~= views(before).push(text@));
            }
        }
        i = i + 1;
    }
    proof {
        assert(sv.take(all.len() as int) =~= sv);
    }
    out
}

/// What the documentation spiders read of a page: the texts of its code
/// blocks and its link targets, with the JSON documents of its scripts as the
/// caller parsed them.
pub fn page_parts(html: &str, json_blobs: Vec<JsonValue>) -> (r: PageParts)
    ensures
        views(r.code_texts@) == html_code_texts(html@),
        r.json_blobs@ == json_blobs@,
        views(r.links@) == present(html_hrefs(html@)),
{
    PageParts { code_texts: code_texts(html), json_blobs, links: page_links(html) }
}

/// A table as the page writes it: its header texts and the texts of the
/// cells of each body row.
#[derive(Debug)]
pub struct RawTable {
    pub headers: Vec<String>,
    pub rows: Vec<Vec<String>>,
}

/// The tables of a page, in document order.
pub fn raw_tables(html: &str) -> (r: Vec<RawTable>)
    ensures
        ({
            let h = html_table_heads(html@);
            let w = html_table_rows(html@);
            &&& r.len() == if h.len() <= w.len() { h.len() } else { w.len() }
            &&& forall|i: int|
                0 <= i < r.len() ==> views((#[trigger] r@[i]).headers@) == h[i] && rows_view(r@[i].rows@) == w[i]
        }),
{
    let heads = table_heads(html);
    let rows = table_rows(html);
    let ghost h = heads@.map_values(|x: Vec<String>| views(x@));
    let ghost w = rows@.map_values(|t: Vec<Vec<String>>| rows_view(t@));
    let n = if heads.len() <= rows.len() { heads.len() } else { rows.len() };
    let mut out: Vec<RawTable> = Vec::new();
    let mut i: usize = 0;
    while i < n
        invariant
            i <= n,
            n <= heads.len(),
            n <= rows.len(),
            out.len() == i,
            h == heads@.map_values(|x: Vec<String>| views(x@)),
            w == rows@.map_values(|t: Vec<Vec<String>>| rows_view(t@)),
            forall|k: int|
                0 <= k < i ==> views((#[trigger] out@[k]).headers@) == h[k] && rows_view(out@[k].rows@) == w[k],
        decreases n - i,
    {
        let hd = copy_texts(&heads[i]);
        let rw = copy_rows(&rows[i]);
        out.push(RawTable { headers: hd, rows: rw });
        i = i + 1;
    }
    out
}

fn copy_texts(v: &Vec<String>) -> (r: Vec<String>)
    ensures
        views(r@) == views(v@),
{
    let mut out: Vec<String> = Vec::new();
    let mut i: usize = 0;
    while i < v.len()
        invariant
            i <= v.len(),
            views(out@) == views(v@).take(i as int),
        decreases v.len() - i,
    {
        let ghost before = out@;
        out.push(v[i].clone());
        proof {
            assert(views(out@) =~= views(before).push(v@[i as int]@));
            assert(views(v@).take(i + 1) =~= views(v@).take(i as int).push(v@[i as int]@));
        }
        i = i + 1;
    }
    proof {
        assert(views(v@).take(v.len() as int) =~= views(v@));
    }
    out
}

fn copy_rows(v: &Vec<Vec<String>>) -> (r: Vec<Vec<String>>)
    ensures
        rows_view(r@) == rows_view(v@),
{
    let mut out: Vec<Vec<String>> = Vec::new();
    let mut i: usize = 0;
    while i < v.len()
        invariant
            i <= v.len(),
            rows_view(out@) == rows_view(v@).take(i as int),
        decreases v.len() - i,
    {
        let ghost before = out@;
        let c = copy_texts(&v[i]);
        out.push(c);
        proof {
            assert(rows_view(out@) =~= rows_view(before).push(views(v@[i as int]@)));
            assert(rows_view(v@).take(i + 1) =~= rows_view(v@).take(i as int).push(views(v@[i as int]@)));
        }
        i = i + 1;
    }
    proof {
        assert(rows_view(v@).take(v.len() as int) =~= rows_view(v@));
    }
    out
}

/// The `n`-th text of the list, or the empty text when it has none.
pub open spec fn nth_or_empty(v: Seq<Seq<char>>, n: int) -> Seq<char> {
    if 0 <= n < v.len() {
        v[n]
    } else {
        Seq::empty()
    }
}

/// The `n`-th text of the list, or the empty text when it has none.
fn nth_text(v: &Vec<String>, n: usize) -> (r: String)
    ensures
        r@ == nth_or_empty(views(v@), n as int),
{
    if n < v.len() {
        v[n].clone()
    } else {
        String::new()
    }
}

/// What the model-card spiders read of a page: the texts of its headings
/// and buttons, and of its sections the first bold text and the second
/// paragraph (empty where missing). No token count is read here: it is left
/// `None` for the caller to fill in.
pub fn card_parts(html: &str) -> (r: CardParts)
    ensures
        views(r.headings@) == html_h1_texts(html@),
        views(r.buttons@) == html_button_texts(html@),
        r.sections.len() == html_sections(html@).len(),
        forall|i: int|
            0 <= i < r.sections.len() ==> {
                let s = #[trigger] r.sections@[i];
                &&& s.label@ == nth_or_empty(html_sections(html@)[i].0, 0)
                &&& s.value@ == nth_or_empty(html_sections(html@)[i].1, 1)
                &&& s.scaled_count is None
            },
{
    let raw = sections(html);
    let ghost sv = section_views(raw@);
    let mut out: Vec<Section> = Vec::new();
    let mut i: usize = 0;
    while i < raw.len()
        invariant
            i <= raw.len(),
            sv == section_views(raw@),
            out.len() == i,
            forall|k: int|
                0 <= k < i ==> {
                    let s = #[trigger] out@[k];
                    &&& s.label@ == nth_or_empty(sv[k].0, 0)
                    &&& s.value@ == nth_or_empty(sv[k].1, 1)
                    &&& s.scaled_count is None
                },
        decreases raw.len() - i,
    {
        let (b, p) = &raw[i];
        let label = nth_text(b, 0);
        let value = nth_text(p, 1);
        proof {
            assert(sv[i as int] == (views(b@), views(p@)));
        }
        out.push(Section { label, value, scaled_count: None });
        i = i + 1;
    }
    CardParts { headings: h1_texts(html), buttons: button_texts(html), sections: out }
}

} // verus!
