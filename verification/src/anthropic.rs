//! The Anthropic spider: model comparison tables with one column per model
//! and one row per feature (API id, pricing, context window, max output).
use vstd::prelude::*;
use crate::catalog::Nanos;
use crate::pricing::{decimal_nanos, no_commas, parse_in_range};
use crate::scraped::ScrapedModel;
use crate::spiders::{HtmlResponse, SpiderOutput, owned_list};
use crate::text::{
    contains_str, has_substring, is_ws, ltrim, split, split_seq, to_chars, to_lowercase, trim,
    trim_seq, unicode_lower, views,
};

verus! {

/// A table cell: its text, and the token size that the text gives when read
/// with an `M` or `K` multiplier (`None` if it gives none).
#[derive(Debug)]
pub struct Cell {
    pub text: String,
    pub size: Option<u64>,
}

/// A table: the texts of its header cells and the cells of its body rows.
#[derive(Debug)]
pub struct Table {
    pub headers: Vec<String>,
    pub rows: Vec<Vec<Cell>>,
}

pub const ANTHROPIC_URL: &'static str = "https://docs.anthropic.com/en/docs/models-overview";

/// The text without one final carriage return.
pub open spec fn strip_cr(s: Seq<char>) -> Seq<char> {
    if s.len() > 0 && s.last() == '\r' {
        s.drop_last()
    } else {
        s
    }
}

/// `str::lines`: the pieces between line feeds, each without the carriage
/// return before its line feed, and no empty piece after a final line feed.
pub open spec fn lines(s: Seq<char>) -> Seq<Seq<char>> {
    let ps = split_seq(s, '\n');
    let body = ps.drop_last().map_values(|p: Seq<char>| strip_cr(p));
    if ps.last().len() > 0 {
        body.push(ps.last())
    } else {
        body
    }
}

/// The length of the leading run of non-whitespace characters.
pub open spec fn word_len(s: Seq<char>) -> int
    decreases s.len(),
{
    if s.len() > 0 && !is_ws(s[0]) {
        1 + word_len(s.drop_first())
    } else {
        0
    }
}

/// The text without the `$` characters at its start.
pub open spec fn strip_dollars(s: Seq<char>) -> Seq<char>
    decreases s.len(),
{
    if s.len() > 0 && s[0] == '$' {
        strip_dollars(s.drop_first())
    } else {
        s
    }
}

/// A decimal number with an optional sign, in billionths.
pub open spec fn signed_nanos(t: Seq<char>) -> Option<int> {
    if t.len() > 0 && t[0] == '-' {
        match decimal_nanos(t.drop_first()) {
            Some(v) => Some(-v),
            None => None,
        }
    } else if t.len() > 0 && t[0] == '+' {
        decimal_nanos(t.drop_first())
    } else {
        decimal_nanos(t)
    }
}

/// The dollar amount that a line starts with: the first word after the `$`
/// signs, without commas, as a decimal number that fits in billionths.
pub open spec fn dollar_amount(text: Seq<char>) -> Option<int> {
    let s = ltrim(strip_dollars(trim_seq(text)));
    let w = no_commas(s.take(word_len(s)));
    if s.len() == 0 {
        None
    } else {
        match signed_nanos(w) {
            Some(v) => if i64::MIN < v <= i64::MAX {
                Some(v)
            } else {
                None
            },
            None => None,
        }
    }
}

/// The input and output prices of a pricing cell, line by line: a line with
/// an amount sets the input price if it mentions input, the output price if
/// it mentions output, and otherwise the input price while that is unset.
pub open spec fn pricing_of(ls: Seq<Seq<char>>) -> (Option<int>, Option<int>)
    decreases ls.len(),
{
    if ls.len() == 0 {
        (None, None)
    } else {
        let (i, o) = pricing_of(ls.drop_last());
        let line = ls.last();
        let lower = unicode_lower(line);
        match dollar_amount(line) {
            None => (i, o),
            Some(p) => if has_substring(lower, "input"@) {
                (Some(p), o)
            } else if has_substring(lower, "output"@) {
                (i, Some(p))
            } else if i is None {
                (Some(p), o)
            } else {
                (i, Some(p))
            },
        }
    }
}

proof fn lemma_strip_dollar_step(s: Seq<char>, a: int)
    requires
        0 <= a < s.len(),
        s[a] == '$',
    ensures
        strip_dollars(s.skip(a)) == strip_dollars(s.skip(a + 1)),
{
    assert(s.skip(a).drop_first() =~= s.skip(a + 1));
}

proof fn lemma_ws_step(s: Seq<char>, a: int)
    requires
        0 <= a < s.len(),
        is_ws(s[a]),
    ensures
        ltrim(s.skip(a)) == ltrim(s.skip(a + 1)),
{
    assert(s.skip(a).subrange(1, s.skip(a).len() as int) =~= s.skip(a + 1));
}

proof fn lemma_word_step(s: Seq<char>, a: int)
    requires
        0 <= a < s.len(),
        !is_ws(s[a]),
    ensures
        word_len(s.skip(a)) == 1 + word_len(s.skip(a + 1)),
{
    assert(s.skip(a).drop_first() =~= s.skip(a + 1));
}

/// The dollar amount that a text starts with.
pub fn extract_dollar(text: &str) -> (r: Option<Nanos>)
    ensures
        match dollar_amount(text@) {
            Some(v) => r == Some(v as i64),
            None => r is None,
        },
{
    let t = trim(text);
    let v = to_chars(t.as_str());
    let mut a: usize = 0;
    proof {
        assert(v@.skip(0) =~= v@);
    }
    while a < v.len() && v[a] == '$'
        invariant
            a <= v.len(),
            strip_dollars(v@) == strip_dollars(v@.skip(a as int)),
        decreases v.len() - a,
    {
        proof {
            lemma_strip_dollar_step(v@, a as int);
        }
        a = a + 1;
    }
    proof {
        if a < v.len() {
            assert(v@.skip(a as int)[0] == v@[a as int]);
        }
        assert(strip_dollars(v@.skip(a as int)) == v@.skip(a as int));
    }
    let mut b: usize = a;
    while b < v.len() && crate::text::is_whitespace(v[b])
        invariant
            a <= b <= v.len(),
            ltrim(v@.skip(a as int)) == ltrim(v@.skip(b as int)),
        decreases v.len() - b,
    {
        proof {
            lemma_ws_step(v@, b as int);
        }
        b = b + 1;
    }
    proof {
        if b < v.len() {
            assert(v@.skip(b as int)[0] == v@[b as int]);
        }
        assert(ltrim(v@.skip(b as int)) == v@.skip(b as int));
    }
    let ghost s = v@.skip(b as int);
    if b == v.len() {
        proof {
            assert(s.len() == 0);
        }
        return None;
    }
    let mut e: usize = b;
    let mut word: Vec<char> = Vec::new();
    while e < v.len() && !crate::text::is_whitespace(v[e])
        invariant
            b <= e <= v.len(),
            s == v@.skip(b as int),
            word_len(s) == (e - b) + word_len(v@.skip(e as int)),
            word@ == no_commas(v@.subrange(b as int, e as int)),
        decreases v.len() - e,
    {
        proof {
            lemma_word_step(v@, e as int);
            assert(v@.subrange(b as int, e + 1) =~= v@.subrange(b as int, e as int).push(v@[e as int]));
            assert(v@.subrange(b as int, e + 1).drop_last() =~= v@.subrange(b as int, e as int));
        }
        if v[e] != ',' {
            word.push(v[e]);
        }
        e = e + 1;
    }
    proof {
        if e < v.len() {
            assert(v@.skip(e as int)[0] == v@[e as int]);
        }
        assert(word_len(v@.skip(e as int)) == 0);
        assert(s.take(e - b) =~= v@.subrange(b as int, e as int));
    }
    if word.len() > 0 && word[0] == '-' {
        let rest = slice_from(&word, 1);
        proof {
            assert(rest@ =~= word@.drop_first());
        }
        match parse_in_range(&rest, 0, i64::MAX) {
            Some(x) => Some(-x),
            None => None,
        }
    } else if word.len() > 0 && word[0] == '+' {
        let rest = slice_from(&word, 1);
        proof {
            assert(rest@ =~= word@.drop_first());
        }
        parse_in_range(&rest, 0, i64::MAX)
    } else {
        parse_in_range(&word, 0, i64::MAX)
    }
}

fn slice_from(v: &Vec<char>, from: usize) -> (r: Vec<char>)
    requires
        from <= v.len(),
    ensures
        r@ == v@.subrange(from as int, v.len() as int),
{
    let mut out: Vec<char> = Vec::new();
    let mut i = from;
    while i < v.len()
        invariant
            from <= i <= v.len(),
            out@ == v@.subrange(from as int, i as int),
        decreases v.len() - i,
    {
        out.push(v[i]);
        proof {
            assert(out@ =~= v@.subrange(from as int, i + 1));
        }
        i = i + 1;
    }
    out
}


/// The lines of a text.
pub fn text_lines(s: &str) -> (r: Vec<String>)
    ensures
        views(r@) == lines(s@),
{
    let pieces = split(s, '\n');
    let ghost ps = split_seq(s@, '\n');
    let mut out: Vec<String> = Vec::new();
    let mut i: usize = 0;
    let last = pieces.len() - 1;
    proof {
        assert(ps.drop_last().take(0).map_values(|p: Seq<char>| strip_cr(p)) =~= Seq::<Seq<char>>::empty());
        assert(views(out@) =~= Seq::<Seq<char>>::empty());
    }
    while i < last
        invariant
            i <= last,
            last == pieces.len() - 1,
            pieces.len() >= 1,
            views(pieces@) == ps,
            views(out@) == ps.drop_last().take(i as int).map_values(|p: Seq<char>| strip_cr(p)),
        decreases last - i,
    {
        let v = to_chars(pieces[i].as_str());
        proof {
            assert(ps[i as int] == pieces@[i as int]@);
        }
        let line = if v.len() > 0 && v[v.len() - 1] == '\r' {
            crate::text::string_of_range(&v, 0, v.len() - 1)
        } else {
            pieces[i].clone()
        };
        proof {
            if v.len() > 0 && v@[v.len() - 1] == '\r' {
                assert(v@.subrange(0, v.len() - 1) =~= v@.drop_last());
            }
            assert(line@ == strip_cr(ps[i as int]));
        }
        let ghost before = out@;
        out.push(line);
        proof {
            assert(views(out@) =~= views(before).push(line@));
            assert(ps.drop_last().take(i + 1).map_values(|p: Seq<char>| strip_cr(p)) =~= ps.drop_last().take(
                i as int,
            ).map_values(|p: Seq<char>| strip_cr(p)).push(strip_cr(ps[i as int])));
        }
        i = i + 1;
    }
    proof {
        assert(ps.drop_last().take(last as int) =~= ps.drop_last());
        assert(ps.last() == pieces@[last as int]@);
    }
    if !pieces[last].as_str().is_empty() {
        let ghost before = out@;
        let p = pieces[last].clone();
        out.push(p);
        proof {
            assert(views(out@) =~= views(before).push(p@));
        }
    }
    out
}

/// The input and output prices of a pricing cell.
pub fn parse_pricing(text: &str) -> (r: (Option<Nanos>, Option<Nanos>))
    ensures
        ({
            let p = pricing_of(lines(text@));
            &&& match r.0 {
                Some(x) => p.0 == Some(x as int),
                None => p.0 is None,
            }
            &&& match r.1 {
                Some(x) => p.1 == Some(x as int),
                None => p.1 is None,
            }
        }),
{
    let ls = text_lines(text);
    let ghost lv = views(ls@);
    let mut input: Option<Nanos> = None;
    let mut output: Option<Nanos> = None;
    let mut i: usize = 0;
    proof {
        assert(lv.take(0) =~= Seq::<Seq<char>>::empty());
    }
    while i < ls.len()
        invariant
            i <= ls.len(),
            lv == views(ls@),
            match input {
                Some(x) => pricing_of(lv.take(i as int)).0 == Some(x as int),
                None => pricing_of(lv.take(i as int)).0 is None,
            },
            match output {
                Some(x) => pricing_of(lv.take(i as int)).1 == Some(x as int),
                None => pricing_of(lv.take(i as int)).1 is None,
            },
        decreases ls.len() - i,
    {
        proof {
            assert(lv.take(i + 1).drop_last() =~= lv.take(i as int));
            assert(lv.take(i + 1).last() == ls@[i as int]@);
        }
        let line = &ls[i];
        let lower = to_lowercase(line.as_str());
        match extract_dollar(line.as_str()) {
            Some(price) => {
                if contains_str(lower.as_str(), "input") {
                    input = Some(price);
                } else if contains_str(lower.as_str(), "output") {
                    output = Some(price);
                } else if input.is_none() {
                    input = Some(price);
                } else {
                    output = Some(price);
                }
            },
            None => {},
        }
        i = i + 1;
    }
    proof {
        assert(lv.take(lv.len() as int) =~= lv);
    }
    (input, output)
}

/// One model column as read so far: API id, input and output price,
/// context window and max output.
pub type ColV = (Option<Seq<char>>, Option<int>, Option<int>, Option<u64>, Option<u64>);

/// A column after the row labelled `label` gives it `cell`.
pub open spec fn col_update(c: ColV, label: Seq<char>, cell: Cell) -> ColV {
    let t = cell.text@;
    if has_substring(label, "api id"@) {
        (Some(trim_seq(t)), c.1, c.2, c.3, c.4)
    } else if has_substring(label, "pricing"@) {
        let p = pricing_of(lines(t));
        (c.0, p.0, p.1, c.3, c.4)
    } else if has_substring(label, "context window"@) {
        (c.0, c.1, c.2, cell.size, c.4)
    } else if has_substring(label, "max output"@) {
        (c.0, c.1, c.2, c.3, cell.size)
    } else {
        c
    }
}

/// The columns after one body row: its first cell, trimmed and lower-cased,
/// labels the row, and the following cells go to the columns in order.
pub open spec fn row_apply(cols: Seq<ColV>, row: Seq<Cell>) -> Seq<ColV> {
    if row.len() == 0 {
        cols
    } else {
        let label = unicode_lower(trim_seq(row[0].text@));
        Seq::new(
            cols.len(),
            |i: int| if i + 1 < row.len() {
                col_update(cols[i], label, row[i + 1])
            } else {
                cols[i]
            },
        )
    }
}

pub open spec fn rows_apply(cols: Seq<ColV>, rows: Seq<Vec<Cell>>) -> Seq<ColV>
    decreases rows.len(),
{
    if rows.len() == 0 {
        cols
    } else {
        row_apply(rows_apply(cols, rows.drop_last()), rows.last()@)
    }
}

/// A scraped Anthropic model: the column's values, titled by its header.
pub open spec fn column_model(m: ScrapedModel, c: ColV, header: Seq<char>) -> bool {
    &&& c.0 == Some(m.id@)
    &&& m.provider@ == "anthropic"@
    &&& m.display_name matches Some(d) && d@ == trim_seq(header)
    &&& m.context_window == c.3
    &&& m.max_output_tokens == c.4
    &&& match m.input_price {
        Some(x) => c.1 == Some(x as int),
        None => c.1 is None,
    }
    &&& match m.output_price {
        Some(x) => c.2 == Some(x as int),
        None => c.2 is None,
    }
    &&& m.input_price_candidates@.len() == 0
    &&& m.source_url@ == ANTHROPIC_URL@
}

/// Whether a table is a model comparison: at least two header cells, the
/// first reading `feature`.
pub open spec fn is_model_table(t: Table) -> bool {
    t.headers@.len() >= 2 && unicode_lower(trim_seq(t.headers@[0]@)) == "feature"@
}

/// The columns of a model comparison table after all its rows.
pub open spec fn table_columns(t: Table) -> Seq<ColV> {
    rows_apply(
        Seq::new((t.headers@.len() - 1) as nat, |i: int| (None, None, None, None, None)),
        t.rows@,
    )
}

/// The column positions that have an API id, in order.
pub open spec fn id_columns(cols: Seq<ColV>) -> Seq<int>
    decreases cols.len(),
{
    if cols.len() == 0 {
        Seq::empty()
    } else {
        let p = id_columns(cols.drop_last());
        if cols.last().0 is Some {
            p.push(cols.len() - 1)
        } else {
            p
        }
    }
}

/// The models of one table, column by column.
pub open spec fn table_models_ok(ms: Seq<ScrapedModel>, t: Table) -> bool {
    if !is_model_table(t) {
        ms.len() == 0
    } else {
        let cols = table_columns(t);
        let ids = id_columns(cols);
        &&& ms.len() == ids.len()
        &&& forall|k: int| 0 <= k < ms.len() ==> column_model(#[trigger] ms[k], cols[ids[k]], t.headers@[ids[k] + 1]@)
    }
}


struct Column {
    api: Option<String>,
    input: Option<Nanos>,
    output: Option<Nanos>,
    context: Option<u64>,
    max_out: Option<u64>,
}

spec fn opt_nanos(v: Option<Nanos>) -> Option<int> {
    match v {
        Some(x) => Some(x as int),
        None => None,
    }
}

spec fn col_view(c: Column) -> ColV {
    (
        match c.api {
            Some(s) => Some(s@),
            None => None,
        },
        opt_nanos(c.input),
        opt_nanos(c.output),
        c.context,
        c.max_out,
    )
}

spec fn cols_view(v: Seq<Column>) -> Seq<ColV> {
    v.map_values(|c: Column| col_view(c))
}

fn copy_column(c: &Column) -> (r: Column)
    ensures
        col_view(r) == col_view(*c),
{
    Column {
        api: match &c.api {
            Some(s) => Some(s.clone()),
            None => None,
        },
        input: c.input,
        output: c.output,
        context: c.context,
        max_out: c.max_out,
    }
}

fn updated(c: &Column, label: &String, cell: &Cell) -> (r: Column)
    ensures
        col_view(r) == col_update(col_view(*c), label@, *cell),
{
    let t = cell.text.as_str();
    if contains_str(label.as_str(), "api id") {
        let mut r = copy_column(c);
        r.api = Some(trim(t));
        r
    } else if contains_str(label.as_str(), "pricing") {
        let (i, o) = parse_pricing(t);
        let mut r = copy_column(c);
        r.input = i;
        r.output = o;
        r
    } else if contains_str(label.as_str(), "context window") {
        let mut r = copy_column(c);
        r.context = cell.size;
        r
    } else if contains_str(label.as_str(), "max output") {
        let mut r = copy_column(c);
        r.max_out = cell.size;
        r
    } else {
        copy_column(c)
    }
}

fn apply_row(cols: &mut Vec<Column>, row: &Vec<Cell>)
    ensures
        cols_view(final(cols)@) == row_apply(cols_view(old(cols)@), row@),
{
    if row.len() > 0 {
        let label = to_lowercase(trim(row[0].text.as_str()).as_str());
        let ghost start = cols_view(cols@);
        let ghost lab = label@;
        let n = cols.len();
        let mut i: usize = 0;
        while i < n
            invariant
                i <= n,
                n == cols.len(),
                start.len() == n,
                lab == label@,
                lab == unicode_lower(trim_seq(row@[0].text@)),
                row@.len() > 0,
                forall|x: int|
                    0 <= x < n ==> #[trigger] cols_view(cols@)[x] == if x < i && x + 1 < row@.len() {
                        col_update(start[x], lab, row@[x + 1])
                    } else {
                        start[x]
                    },
            decreases n - i,
        {
            if i + 1 < row.len() {
                let ghost before = cols@;
                let c = updated(&cols[i], &label, &row[i + 1]);
                proof {
                    assert(cols_view(before)[i as int] == col_view(before[i as int]));
                }
                cols.set(i, c);
                proof {
                    assert forall|x: int| 0 <= x < n implies #[trigger] cols_view(cols@)[x] == if x < i + 1 && x + 1 < row@.len() {
                        col_update(start[x], lab, row@[x + 1])
                    } else {
                        start[x]
                    } by {
                        assert(cols_view(before)[x] == col_view(before[x]));
                        if x != i {
                            assert(cols@[x] == before[x]);
                        }
                    }
                }
            }
            i = i + 1;
        }
        proof {
            assert(cols_view(cols@) =~= row_apply(start, row@));
        }
    }
}

/// The models of one table: one per column that gives an API id.
pub fn table_models(t: &Table) -> (r: Vec<ScrapedModel>)
    ensures
        table_models_ok(r@, *t),
{
    let mut out: Vec<ScrapedModel> = Vec::new();
    if t.headers.len() < 2 {
        return out;
    }
    let h0 = to_lowercase(trim(t.headers[0].as_str()).as_str());
    if h0 != "feature".to_owned() {
        return out;
    }
    let n = t.headers.len() - 1;
    let mut cols: Vec<Column> = Vec::new();
    let mut i: usize = 0;
    while i < n
        invariant
            i <= n,
            cols_view(cols@) == Seq::new(i as nat, |x: int| (None::<Seq<char>>, None::<int>, None::<int>, None::<u64>, None::<u64>)),
        decreases n - i,
    {
        let ghost before = cols@;
        let c = Column { api: None, input: None, output: None, context: None, max_out: None };
        cols.push(c);
        proof {
            assert(cols_view(cols@) =~= cols_view(before).push(col_view(c)));
            assert(cols_view(cols@) =~= Seq::new((i + 1) as nat, |x: int| (None::<Seq<char>>, None::<int>, None::<int>, None::<u64>, None::<u64>)));
        }
        i = i + 1;
    }
    let mut k: usize = 0;
    proof {
        assert(t.rows@.take(0) =~= Seq::<Vec<Cell>>::empty());
    }
    while k < t.rows.len()
        invariant
            k <= t.rows.len(),
            n == t.headers.len() - 1,
            cols_view(cols@) == rows_apply(
                Seq::new(n as nat, |x: int| (None::<Seq<char>>, None::<int>, None::<int>, None::<u64>, None::<u64>)),
                t.rows@.take(k as int),
            ),
        decreases t.rows.len() - k,
    {
        proof {
            assert(t.rows@.take(k + 1).drop_last() =~= t.rows@.take(k as int));
            assert(t.rows@.take(k + 1).last() == t.rows@[k as int]);
        }
        apply_row(&mut cols, &t.rows[k]);
        k = k + 1;
    }
    proof {
        assert(t.rows@.take(t.rows.len() as int) =~= t.rows@);
        lemma_rows_len(Seq::new(n as nat, |x: int| (None::<Seq<char>>, None::<int>, None::<int>, None::<u64>, None::<u64>)), t.rows@);
    }
    let ghost cv = cols_view(cols@);
    let mut j: usize = 0;
    proof {
        assert(cv.take(0) =~= Seq::<ColV>::empty());
    }
    while j < n
        invariant
            j <= n,
            n == cols.len(),
            n == t.headers.len() - 1,
            cv == cols_view(cols@),
            out@.len() == id_columns(cv.take(j as int)).len(),
            forall|q: int| 0 <= q < out@.len() ==> id_columns(cv.take(j as int))[q] < j,
            forall|q: int|
                0 <= q < out@.len() ==> column_model(
                    #[trigger] out@[q],
                    cv[id_columns(cv.take(j as int))[q]],
                    t.headers@[id_columns(cv.take(j as int))[q] + 1]@,
                ),
        decreases n - j,
    {
        proof {
            assert(cv.take(j + 1).drop_last() =~= cv.take(j as int));
            assert(cv.take(j + 1).last() == cv[j as int]);
            assert(cv[j as int] == col_view(cols@[j as int]));
        }
        match &cols[j].api {
            Some(id) => {
                let m = ScrapedModel {
                    id: id.clone(),
                    provider: "anthropic".to_owned(),
                    display_name: Some(trim(t.headers[j + 1].as_str())),
                    context_window: cols[j].context,
                    max_output_tokens: cols[j].max_out,
                    input_price: cols[j].input,
                    input_price_candidates: Vec::new(),
                    output_price: cols[j].output,
                    source_url: ANTHROPIC_URL.to_owned(),
                };
                let ghost before = out@;
                out.push(m);
                proof {
                    let ids1 = id_columns(cv.take(j + 1));
                    assert(ids1 == id_columns(cv.take(j as int)).push(j as int));
                    assert forall|q: int| 0 <= q < out@.len() implies column_model(
                        #[trigger] out@[q],
                        cv[ids1[q]],
                        t.headers@[ids1[q] + 1]@,
                    ) by {
                        if q < before.len() {
                            assert(out@[q] == before[q]);
                        }
                    }
                }
            },
            None => {},
        }
        j = j + 1;
    }
    proof {
        assert(cv.take(n as int) =~= cv);
    }
    out
}

proof fn lemma_rows_len(cols: Seq<ColV>, rows: Seq<Vec<Cell>>)
    ensures
        rows_apply(cols, rows).len() == cols.len(),
    decreases rows.len(),
{
    if rows.len() > 0 {
        lemma_rows_len(cols, rows.drop_last());
    }
}


/// How many models a table yields.
pub open spec fn table_count(t: Table) -> int {
    if is_model_table(t) {
        id_columns(table_columns(t)).len() as int
    } else {
        0
    }
}

/// The models are those of each table in turn.
pub open spec fn tables_ok(ms: Seq<ScrapedModel>, ts: Seq<Table>) -> bool
    decreases ts.len(),
{
    if ts.len() == 0 {
        ms.len() == 0
    } else {
        let k = ms.len() - table_count(ts.last());
        &&& k >= 0
        &&& tables_ok(ms.take(k), ts.drop_last())
        &&& table_models_ok(ms.skip(k), ts.last())
    }
}

/// The Anthropic spider: the models overview page's comparison tables.
#[derive(Debug, Clone, Copy)]
pub struct AnthropicSpider;

impl AnthropicSpider {
    pub fn name(&self) -> (r: &'static str)
        ensures
            r@ == "anthropic"@,
    {
        "anthropic"
    }

    pub fn start_urls(&self) -> (r: Vec<String>)
        ensures
            views(r@) == seq![ANTHROPIC_URL@],
    {
        let u: [&str; 1] = [ANTHROPIC_URL];
        let r = owned_list(&u);
        proof {
            assert(u@.map_values(|s: &str| s@) =~= seq![ANTHROPIC_URL@]);
        }
        r
    }

    /// The models of every comparison table of the page, table by table and
    /// column by column; no links are followed.
    pub fn scrape(&self, tables: &Vec<Table>) -> (r: SpiderOutput)
        ensures
            r.follow_urls@.len() == 0,
            tables_ok(r.items@, tables@),
    {
        let mut out: Vec<ScrapedModel> = Vec::new();
        let mut i: usize = 0;
        proof {
            assert(tables@.take(0) =~= Seq::<Table>::empty());
        }
        while i < tables.len()
            invariant
                i <= tables.len(),
                tables_ok(out@, tables@.take(i as int)),
            decreases tables.len() - i,
        {
            let ms = table_models(&tables[i]);
            let ghost msv = ms@;
            let ghost before = out@;
            let ghost tv = tables@[i as int];
            proof {
                if !is_model_table(tv) {
                    assert(msv.len() == 0);
                }
            }
            let mut ms = ms;
            out.append(&mut ms);
            proof {
                let ts = tables@.take(i + 1);
                assert(ts.drop_last() =~= tables@.take(i as int));
                assert(ts.last() == tv);
                assert(out@.take(before.len() as int) =~= before);
                assert(out@.skip(before.len() as int) =~= msv);
            }
            i = i + 1;
        }
        proof {
            assert(tables@.take(tables.len() as int) =~= tables@);
        }
        SpiderOutput::new().items(out)
    }
}

} // verus!
