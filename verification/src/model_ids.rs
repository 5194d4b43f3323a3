//! Recognising model identifiers in the text of provider documentation.
use vstd::prelude::*;
use crate::text::{from_chars, has_prefix_at, is_digit, is_lower, is_whitespace, is_ws, to_chars, views};

verus! {

/// Characters that a model id may hold: ASCII lowercase letters, digits, `-`, `.`, `_`.
pub open spec fn id_char(c: char) -> bool {
    is_lower(c) || is_digit(c) || c == '-' || c == '.' || c == '_'
}

pub open spec fn count_char(s: Seq<char>, c: char) -> nat
    decreases s.len(),
{
    if s.len() == 0 {
        0
    } else {
        count_char(s.drop_last(), c) + if s.last() == c {
            1nat
        } else {
            0nat
        }
    }
}

/// File extensions that mark a bundle artifact or a file name, not a model id.
pub open spec fn file_extensions() -> Seq<Seq<char>> {
    seq![
        ".js"@, ".ts"@, ".jsx"@, ".tsx"@, ".css"@, ".vue"@, ".py"@, ".go"@, ".json"@, ".yaml"@,
        ".yml"@, ".wav"@, ".mp3"@, ".mp4"@, ".csv"@,
    ]
}

/// Identifiers of documentation platforms, brand slugs and API field names
/// that look like model ids but are not.
pub open spec fn blocklist() -> Seq<Seq<char>> {
    seq![
        "get-started"@, "execute-request"@, "list-endpoints"@, "list-specs"@,
        "get-endpoint"@, "search-endpoints"@, "get-server-variables"@, "readme.io"@,
        "readmessl.com"@, "dash.readme.com"@, "ssl.readmessl.com"@, "readme_search_v2"@,
        "landing_page"@, "top-left"@, "image-generation"@, "client.chat.completions.create"@,
        "reasoning_effort"@, "request_id"@, "response_id"@, "error_code"@, "status_code"@,
        "created_at"@, "updated_at"@, "voyage-ai"@, "model-introduction"@, "cloud-based"@,
        "dream-machine"@, "image_url"@, "top_logprobs"@, "finish_reason"@, "tool_calls"@,
    ]
}

/// A version string such as `v1.2.3`: `v` followed by digits and dots only.
pub open spec fn version_like(s: Seq<char>) -> bool {
    s.len() > 0 && s[0] == 'v' && forall|i: int| 1 <= i < s.len() ==> (is_digit(#[trigger] s[i])
        || s[i] == '.')
}

/// Whether a text looks like a model API identifier: 5 to 80 characters, all
/// of them lowercase letters, digits, `-`, `.` or `_`, with at least one of
/// `-`, `.`, `_`; it starts with a lowercase letter, not with `data-`; it ends
/// in no file extension, holds at most two dots, is no version string such as
/// `v1.2.3`, and is not on the blocklist.
pub open spec fn looks_like_id(s: Seq<char>) -> bool {
    &&& 5 <= s.len() <= 80
    &&& forall|i: int| 0 <= i < s.len() ==> id_char(#[trigger] s[i])
    &&& (s.contains('-') || s.contains('.') || s.contains('_'))
    &&& is_lower(s[0])
    &&& !"data-"@.is_prefix_of(s)
    &&& !(exists|k: int| 0 <= k < file_extensions().len() && (#[trigger] file_extensions()[k]).is_suffix_of(s))
    &&& count_char(s, '.') <= 2
    &&& !version_like(s)
    &&& !blocklist().contains(s)
}

fn is_id_char(c: char) -> (r: bool)
    ensures
        r == id_char(c),
{
    let u = c as u32;
    (97 <= u && u <= 122) || (48 <= u && u <= 57) || c == '-' || c == '.' || c == '_'
}

fn lit_chars(s: &str) -> (r: Vec<char>)
    ensures
        r@ == s@,
{
    to_chars(s)
}

fn ends_with_chars(v: &Vec<char>, suffix: &str) -> (r: bool)
    ensures
        r == suffix@.is_suffix_of(v@),
{
    let w = lit_chars(suffix);
    if w.len() > v.len() {
        return false;
    }
    let from = v.len() - w.len();
    let r = has_prefix_at(v, from, &w);
    proof {
        let t = v@.subrange(from as int, v.len() as int);
        assert(t.subrange(0, w@.len() as int) =~= t);
        assert(v@.subrange(v@.len() - w@.len(), v@.len() as int) =~= t);
    }
    r
}

fn equals_chars(v: &Vec<char>, lit: &str) -> (r: bool)
    ensures
        r == (v@ == lit@),
{
    let w = lit_chars(lit);
    if w.len() != v.len() {
        return false;
    }
    let mut i: usize = 0;
    while i < v.len()
        invariant
            i <= v.len() == w.len(),
            w@ == lit@,
            forall|j: int| 0 <= j < i ==> v@[j] == w@[j],
        decreases v.len() - i,
    {
        if v[i] != w[i] {
            return false;
        }
        i = i + 1;
    }
    proof {
        assert(v@ =~= w@);
    }
    true
}

fn has_file_extension(v: &Vec<char>) -> (r: bool)
    ensures
        r == exists|k: int|
            0 <= k < file_extensions().len() && (#[trigger] file_extensions()[k]).is_suffix_of(v@),
{
    let exts: [&str; 15] = [
        ".js", ".ts", ".jsx", ".tsx", ".css", ".vue", ".py", ".go", ".json", ".yaml", ".yml",
        ".wav", ".mp3", ".mp4", ".csv",
    ];
    let ghost spec_exts = file_extensions();
    let mut i: usize = 0;
    proof {
        assert forall|k: int| 0 <= k < 15 implies exts@[k]@ == spec_exts[k] by {
            assert(exts@[0]@ == ".js"@);
        }
    }
    while i < 15
        invariant
            i <= 15,
            spec_exts == file_extensions(),
            forall|k: int| 0 <= k < 15 ==> exts@[k]@ == spec_exts[k],
            forall|k: int| 0 <= k < i ==> !(#[trigger] spec_exts[k]).is_suffix_of(v@),
        decreases 15 - i,
    {
        if ends_with_chars(v, exts[i]) {
            return true;
        }
        i = i + 1;
    }
    false
}

fn on_blocklist(v: &Vec<char>) -> (r: bool)
    ensures
        r == blocklist().contains(v@),
{
    let words: [&str; 31] = [
        "get-started", "execute-request", "list-endpoints", "list-specs", "get-endpoint",
        "search-endpoints", "get-server-variables", "readme.io", "readmessl.com",
        "dash.readme.com", "ssl.readmessl.com", "readme_search_v2", "landing_page", "top-left",
        "image-generation", "client.chat.completions.create", "reasoning_effort", "request_id",
        "response_id", "error_code", "status_code", "created_at", "updated_at", "voyage-ai",
        "model-introduction", "cloud-based", "dream-machine", "image_url", "top_logprobs",
        "finish_reason", "tool_calls",
    ];
    let ghost spec_words = blocklist();
    let mut i: usize = 0;
    proof {
        assert forall|k: int| 0 <= k < 31 implies words@[k]@ == spec_words[k] by {
            assert(words@[0]@ == "get-started"@);
        }
    }
    while i < 31
        invariant
            i <= 31,
            spec_words == blocklist(),
            forall|k: int| 0 <= k < 31 ==> words@[k]@ == spec_words[k],
            forall|k: int| 0 <= k < i ==> spec_words[k] != v@,
        decreases 31 - i,
    {
        if equals_chars(v, words[i]) {
            proof {
                assert(spec_words[i as int] == v@);
            }
            return true;
        }
        i = i + 1;
    }
    false
}

/// See `looks_like_id`.
pub fn looks_like_model_id(s: &str) -> (r: bool)
    ensures
        r == looks_like_id(s@),
{
    let v = to_chars(s);
    let n = v.len();
    if n < 5 || n > 80 {
        return false;
    }
    let mut i: usize = 0;
    let mut sep = false;
    let mut dots: usize = 0;
    let mut vtail = true;
    while i < n
        invariant
            i <= n == v.len(),
            v@ == s@,
            forall|j: int| 0 <= j < i ==> id_char(#[trigger] v@[j]),
            sep == (v@.take(i as int).contains('-') || v@.take(i as int).contains('.') || v@.take(
                i as int,
            ).contains('_')),
            dots == count_char(v@.take(i as int), '.'),
            dots <= i,
            vtail == forall|j: int| 1 <= j < i ==> (is_digit(#[trigger] v@[j]) || v@[j] == '.'),
        decreases n - i,
    {
        let c = v[i];
        proof {
            let t = v@.take(i as int);
            assert(v@.take(i + 1) =~= t.push(c));
            assert(t.push(c).drop_last() =~= t);
            crate::scope::lemma_push_contains(t, c, '-');
            crate::scope::lemma_push_contains(t, c, '.');
            crate::scope::lemma_push_contains(t, c, '_');
        }
        if !is_id_char(c) {
            return false;
        }
        if c == '-' || c == '.' || c == '_' {
            sep = true;
        }
        if c == '.' {
            dots = dots + 1;
        }
        let u = c as u32;
        if i >= 1 && !((48 <= u && u <= 57) || c == '.') {
            vtail = false;
        }
        i = i + 1;
    }
    proof {
        assert(v@.take(n as int) =~= v@);
    }
    if !sep {
        return false;
    }
    let u0 = v[0] as u32;
    if !(97 <= u0 && u0 <= 122) {
        return false;
    }
    let data = lit_chars("data-");
    if has_prefix_at(&v, 0, &data) {
        proof {
            assert(v@.subrange(0, n as int) =~= v@);
        }
        return false;
    }
    proof {
        assert(v@.subrange(0, n as int) =~= v@);
    }
    if has_file_extension(&v) {
        return false;
    }
    if dots > 2 {
        return false;
    }
    if v[0] == 'v' && vtail {
        return false;
    }
    if on_blocklist(&v) {
        return false;
    }
    true
}


/// Whether `char::is_alphanumeric` holds (the Unicode Alphabetic or Numeric property).
pub uninterp spec fn spec_is_alphanumeric(c: char) -> bool;

/// `char::is_alphanumeric`. Its result is named; for ASCII it is exactly the
/// letters and digits, as the standard library documents.
#[verifier::external_body]
fn is_alphanumeric(c: char) -> (r: bool)
    ensures
        r == spec_is_alphanumeric(c),
        (c as u32) < 128 ==> (r == (is_lower(c) || crate::text::is_upper(c) || is_digit(c))),
{
    c.is_alphanumeric()
}

/// The text with non-alphanumeric characters removed from its start.
pub open spec fn lstrip(s: Seq<char>) -> Seq<char>
    decreases s.len(),
{
    if s.len() > 0 && !spec_is_alphanumeric(s[0]) {
        lstrip(s.subrange(1, s.len() as int))
    } else {
        s
    }
}

/// The text with non-alphanumeric characters removed from its end.
pub open spec fn rstrip(s: Seq<char>) -> Seq<char>
    decreases s.len(),
{
    if s.len() > 0 && !spec_is_alphanumeric(s.last()) {
        rstrip(s.drop_last())
    } else {
        s
    }
}

/// `trim_matches(|c| !c.is_alphanumeric())`.
pub open spec fn strip_seq(s: Seq<char>) -> Seq<char> {
    rstrip(lstrip(s))
}

proof fn lemma_lstrip_at(s: Seq<char>, a: int)
    requires
        0 <= a <= s.len(),
        forall|i: int| 0 <= i < a ==> !spec_is_alphanumeric(#[trigger] s[i]),
        a == s.len() || spec_is_alphanumeric(s[a]),
    ensures
        lstrip(s) == s.subrange(a, s.len() as int),
    decreases a,
{
    if a == 0 {
        assert(s.subrange(0, s.len() as int) =~= s);
    } else {
        let t = s.subrange(1, s.len() as int);
        assert forall|i: int| 0 <= i < a - 1 implies !spec_is_alphanumeric(#[trigger] t[i]) by {
            assert(t[i] == s[i + 1]);
        }
        lemma_lstrip_at(t, a - 1);
        assert(t.subrange(a - 1, t.len() as int) =~= s.subrange(a, s.len() as int));
    }
}

proof fn lemma_rstrip_at(s: Seq<char>, b: int)
    requires
        0 <= b <= s.len(),
        forall|i: int| b <= i < s.len() ==> !spec_is_alphanumeric(#[trigger] s[i]),
        b == 0 || spec_is_alphanumeric(s[b - 1]),
    ensures
        rstrip(s) == s.subrange(0, b),
    decreases s.len() - b,
{
    if b == s.len() {
        assert(s.subrange(0, b) =~= s);
    } else {
        let t = s.drop_last();
        assert forall|i: int| b <= i < t.len() implies !spec_is_alphanumeric(#[trigger] t[i]) by {
            assert(t[i] == s[i]);
        }
        lemma_rstrip_at(t, b);
        assert(t.subrange(0, b) =~= s.subrange(0, b));
    }
}

/// The characters `v[from..to]` stripped of non-alphanumeric characters at both ends.
fn strip_range(v: &Vec<char>, from: usize, to: usize) -> (r: Vec<char>)
    requires
        from <= to <= v.len(),
    ensures
        r@ == strip_seq(v@.subrange(from as int, to as int)),
{
    let ghost w = v@.subrange(from as int, to as int);
    let mut a: usize = from;
    while a < to && !is_alphanumeric(v[a])
        invariant
            from <= a <= to <= v.len(),
            w == v@.subrange(from as int, to as int),
            forall|i: int| from <= i < a ==> !spec_is_alphanumeric(#[trigger] v@[i]),
        decreases to - a,
    {
        a = a + 1;
    }
    proof {
        assert forall|i: int| 0 <= i < a - from implies !spec_is_alphanumeric(#[trigger] w[i]) by {
            assert(w[i] == v@[i + from]);
        }
        if a < to {
            assert(w[a - from] == v@[a as int]);
        }
        lemma_lstrip_at(w, a - from);
    }
    let mut b: usize = to;
    while b > a && !is_alphanumeric(v[b - 1])
        invariant
            from <= a <= b <= to <= v.len(),
            forall|i: int| b <= i < to ==> !spec_is_alphanumeric(#[trigger] v@[i]),
        decreases b,
    {
        b = b - 1;
    }
    proof {
        let l = v@.subrange(a as int, to as int);
        assert(w.subrange(a - from, w.len() as int) =~= l);
        assert forall|i: int| (b - a) <= i < l.len() implies !spec_is_alphanumeric(
            #[trigger] l[i],
        ) by {
            assert(l[i] == v@[i + a]);
        }
        if b > a {
            assert(l[b - a - 1] == v@[b - 1]);
        }
        lemma_rstrip_at(l, b - a);
        assert(l.subrange(0, b - a) =~= v@.subrange(a as int, b as int));
    }
    let mut out: Vec<char> = Vec::new();
    let mut k = a;
    while k < b
        invariant
            a <= k <= b <= v.len(),
            out@ == v@.subrange(a as int, k as int),
        decreases b - k,
    {
        out.push(v[k]);
        k = k + 1;
        proof {
            assert(out@ =~= v@.subrange(a as int, k as int));
        }
    }
    out
}

/// The words of a text and the word still open at its end.
pub open spec fn words_acc(s: Seq<char>) -> (Seq<Seq<char>>, Seq<char>)
    decreases s.len(),
{
    if s.len() == 0 {
        (Seq::empty(), Seq::empty())
    } else {
        let (d, c) = words_acc(s.drop_last());
        if is_ws(s.last()) {
            if c.len() > 0 {
                (d.push(c), Seq::empty())
            } else {
                (d, Seq::empty())
            }
        } else {
            (d, c.push(s.last()))
        }
    }
}

/// `str::split_whitespace`: the non-empty runs of non-whitespace characters.
pub open spec fn words(s: Seq<char>) -> Seq<Seq<char>> {
    let (d, c) = words_acc(s);
    if c.len() > 0 {
        d.push(c)
    } else {
        d
    }
}

/// The model ids that one word of documentation text yields (zero or one).
pub open spec fn word_ids(w: Seq<char>) -> Seq<Seq<char>> {
    if looks_like_id(strip_seq(w)) {
        seq![strip_seq(w)]
    } else {
        Seq::empty()
    }
}

/// The model ids in a list of words, in order.
pub open spec fn ids_of_words(ws: Seq<Seq<char>>) -> Seq<Seq<char>>
    decreases ws.len(),
{
    if ws.len() == 0 {
        Seq::empty()
    } else {
        ids_of_words(ws.drop_last()) + word_ids(ws.last())
    }
}

/// The model ids in a text, in order, repeats included.
pub open spec fn text_ids(s: Seq<char>) -> Seq<Seq<char>> {
    ids_of_words(words(s))
}


/// The ids that the word `v[from..to]` yields, appended to `out`.
fn push_word_ids(v: &Vec<char>, from: usize, to: usize, out: &mut Vec<String>)
    requires
        from <= to <= v.len(),
    ensures
        views(final(out)@) == views(old(out)@) + word_ids(v@.subrange(from as int, to as int)),
{
    let stripped = strip_range(v, from, to);
    let cand = from_chars(stripped);
    if looks_like_model_id(cand.as_str()) {
        let ghost before = out@;
        out.push(cand);
        proof {
            assert(views(out@) =~= views(before) + seq![cand@]);
        }
    } else {
        proof {
            assert(views(out@) =~= views(out@) + Seq::<Seq<char>>::empty());
        }
    }
}

proof fn lemma_ids_of_words_push(ws: Seq<Seq<char>>, w: Seq<char>)
    ensures
        ids_of_words(ws.push(w)) == ids_of_words(ws) + word_ids(w),
{
    assert(ws.push(w).drop_last() =~= ws);
}

/// The model ids in a text: each whitespace-separated word, stripped of
/// non-alphanumeric characters at both ends, that looks like a model id.
pub fn ids_in_text(s: &str) -> (r: Vec<String>)
    ensures
        views(r@) == text_ids(s@),
{
    let v = to_chars(s);
    let mut out: Vec<String> = Vec::new();
    let mut start: usize = 0;
    let mut i: usize = 0;
    proof {
        assert(v@.take(0) =~= Seq::<char>::empty());
        assert(views(out@) =~= Seq::<Seq<char>>::empty());
        assert(v@.subrange(0, 0) =~= Seq::<char>::empty());
    }
    while i < v.len()
        invariant
            start <= i <= v.len(),
            v@ == s@,
            views(out@) == ids_of_words(words_acc(v@.take(i as int)).0),
            words_acc(v@.take(i as int)).1 == v@.subrange(start as int, i as int),
        decreases v.len() - i,
    {
        let c = v[i];
        proof {
            assert(v@.take(i + 1).drop_last() =~= v@.take(i as int));
            assert(v@.take(i + 1).last() == c);
        }
        if is_whitespace(c) {
            if start < i {
                proof {
                    lemma_ids_of_words_push(
                        words_acc(v@.take(i as int)).0,
                        v@.subrange(start as int, i as int),
                    );
                }
                push_word_ids(&v, start, i, &mut out);
            }
            start = i + 1;
            proof {
                assert(v@.subrange(start as int, (i + 1) as int) =~= Seq::<char>::empty());
            }
        } else {
            proof {
                assert(v@.subrange(start as int, (i + 1) as int) =~= v@.subrange(
                    start as int,
                    i as int,
                ).push(c));
            }
        }
        i = i + 1;
    }
    proof {
        assert(v@.take(v.len() as int) =~= v@);
    }
    if start < v.len() {
        proof {
            lemma_ids_of_words_push(words_acc(v@).0, v@.subrange(start as int, v.len() as int));
        }
        push_word_ids(&v, start, v.len(), &mut out);
    }
    out
}


/// A JSON document, as far as the id search reads it (numbers carry no value here).
#[derive(Debug)]
pub enum JsonValue {
    Null,
    Bool(bool),
    Number,
    Str(String),
    Array(Vec<JsonValue>),
    /// Members in document order.
    Object(Vec<(String, JsonValue)>),
}

/// Keys whose string value is checked directly as a model id.
pub open spec fn is_model_key(k: Seq<char>) -> bool {
    ||| k == "id"@
    ||| k == "model"@
    ||| k == "model_id"@
    ||| k == "modelId"@
    ||| k == "name"@
    ||| k == "slug"@
    ||| k == "api_name"@
    ||| k == "apiName"@
    ||| k == "identifier"@
}

/// The ids that a string value yields: the trimmed string, if it looks like an id.
pub open spec fn string_ids(s: Seq<char>) -> Seq<Seq<char>> {
    if looks_like_id(crate::text::trim_seq(s)) {
        seq![crate::text::trim_seq(s)]
    } else {
        Seq::empty()
    }
}

/// The model ids found walking a JSON value depth-first; arrays are read up
/// to their first 500 items, and a string under a model key is also checked
/// before its value is walked.
pub open spec fn json_ids(v: JsonValue) -> Seq<Seq<char>>
    decreases v, 0int,
{
    match v {
        JsonValue::Str(s) => string_ids(s@),
        JsonValue::Array(a) => if a@.len() <= 500 {
            items_ids(a@)
        } else {
            items_ids(a@.take(500))
        },
        JsonValue::Object(es) => entries_ids(es@),
        _ => Seq::empty(),
    }
}

pub open spec fn items_ids(items: Seq<JsonValue>) -> Seq<Seq<char>>
    decreases items, 1int,
{
    if items.len() == 0 {
        Seq::empty()
    } else {
        items_ids(items.drop_last()) + json_ids(items.last())
    }
}

pub open spec fn entry_ids(e: (String, JsonValue)) -> Seq<Seq<char>> {
    if is_model_key(e.0@) && e.1 is Str {
        string_ids(e.1->Str_0@)
    } else {
        Seq::empty()
    }
}

pub open spec fn entries_ids(es: Seq<(String, JsonValue)>) -> Seq<Seq<char>>
    decreases es, 1int,
{
    if es.len() == 0 {
        Seq::empty()
    } else {
        entries_ids(es.drop_last()) + entry_ids(es.last()) + json_ids(es.last().1)
    }
}


fn push_string_ids(s: &String, out: &mut Vec<String>)
    ensures
        views(final(out)@) == views(old(out)@) + string_ids(s@),
{
    let t = crate::text::trim(s.as_str());
    if looks_like_model_id(t.as_str()) {
        let ghost before = out@;
        out.push(t);
        proof {
            assert(views(out@) =~= views(before) + seq![t@]);
        }
    } else {
        proof {
            assert(views(out@) =~= views(out@) + Seq::<Seq<char>>::empty());
        }
    }
}

fn is_model_key_text(k: &String) -> (r: bool)
    ensures
        r == is_model_key(k@),
{
    let keys: [&str; 9] = [
        "id", "model", "model_id", "modelId", "name", "slug", "api_name", "apiName", "identifier",
    ];
    let mut i: usize = 0;
    while i < 9
        invariant
            i <= 9,
            keys@[0]@ == "id"@,
            keys@[1]@ == "model"@,
            keys@[2]@ == "model_id"@,
            keys@[3]@ == "modelId"@,
            keys@[4]@ == "name"@,
            keys@[5]@ == "slug"@,
            keys@[6]@ == "api_name"@,
            keys@[7]@ == "apiName"@,
            keys@[8]@ == "identifier"@,
            forall|j: int| 0 <= j < i ==> keys@[j]@ != k@,
        decreases 9 - i,
    {
        let w = keys[i].to_owned();
        if *k == w {
            return true;
        }
        i = i + 1;
    }
    false
}

/// Appends the model ids found in a JSON value (see `json_ids`).
pub fn collect_json_ids(v: &JsonValue, out: &mut Vec<String>)
    ensures
        views(final(out)@) == views(old(out)@) + json_ids(*v),
    decreases v,
{
    let ghost start = out@;
    match v {
        JsonValue::Str(s) => {
            push_string_ids(s, out);
        },
        JsonValue::Array(a) => {
            let n: usize = if a.len() <= 500 {
                a.len()
            } else {
                500
            };
            let ghost items = if a@.len() <= 500 {
                a@
            } else {
                a@.take(500)
            };
            let mut i: usize = 0;
            proof {
                assert(items.take(0) =~= Seq::<JsonValue>::empty());
                assert(views(out@) =~= views(start) + Seq::<Seq<char>>::empty());
            }
            while i < n
                invariant
                    i <= n <= a.len(),
                    *v == JsonValue::Array(*a),
                    n == items.len(),
                    forall|j: int| 0 <= j < n ==> items[j] == a@[j],
                    views(out@) == views(start) + items_ids(items.take(i as int)),
                decreases n - i,
            {
                let ghost before = out@;
                proof {
                    assert(decreases_to!(*v => (*v)->Array_0));
                    assert(decreases_to!(*a => a@));
                    assert(decreases_to!(a@ => a@[i as int]));
                }
                collect_json_ids(&a[i], out);
                proof {
                    assert(items.take(i + 1).drop_last() =~= items.take(i as int));
                    assert(items.take(i + 1).last() == a@[i as int]);
                    assert(views(out@) =~= views(start) + items_ids(items.take(i + 1)));
                }
                i = i + 1;
            }
            proof {
                assert(items.take(n as int) =~= items);
            }
        },
        JsonValue::Object(es) => {
            let mut i: usize = 0;
            proof {
                assert(es@.take(0) =~= Seq::<(String, JsonValue)>::empty());
                assert(views(out@) =~= views(start) + Seq::<Seq<char>>::empty());
            }
            while i < es.len()
                invariant
                    i <= es.len(),
                    *v == JsonValue::Object(*es),
                    views(out@) == views(start) + entries_ids(es@.take(i as int)),
                decreases es.len() - i,
            {
                let e = &es[i];
                if is_model_key_text(&e.0) {
                    if let JsonValue::Str(t) = &e.1 {
                        push_string_ids(t, out);
                    }
                }
                let ghost mid = out@;
                proof {
                    assert(decreases_to!(*v => (*v)->Object_0));
                    assert(decreases_to!(*es => es@));
                    assert(decreases_to!(es@ => es@[i as int]));
                    assert(decreases_to!(es@[i as int] => es@[i as int].1));
                }
                collect_json_ids(&e.1, out);
                proof {
                    assert(es@.take(i + 1).drop_last() =~= es@.take(i as int));
                    assert(es@.take(i + 1).last() == *e);
                    assert(views(out@) =~= views(start) + entries_ids(es@.take(i + 1)));
                }
                i = i + 1;
            }
            proof {
                assert(es@.take(es.len() as int) =~= es@);
            }
        },
        _ => {
            proof {
                assert(views(out@) =~= views(start) + Seq::<Seq<char>>::empty());
            }
        },
    }
}


pub open spec fn texts_ids(ts: Seq<String>) -> Seq<Seq<char>>
    decreases ts.len(),
{
    if ts.len() == 0 {
        Seq::empty()
    } else {
        texts_ids(ts.drop_last()) + text_ids(ts.last()@)
    }
}

pub open spec fn blobs_ids(bs: Seq<JsonValue>) -> Seq<Seq<char>>
    decreases bs.len(),
{
    if bs.len() == 0 {
        Seq::empty()
    } else {
        blobs_ids(bs.drop_last()) + json_ids(bs.last())
    }
}

/// A scraped model that carries only its id, provider and source.
pub open spec fn bare_model(m: crate::scraped::ScrapedModel, id: Seq<char>, provider: Seq<char>, url: Seq<char>) -> bool {
    &&& m.id@ == id
    &&& m.provider@ == provider
    &&& m.display_name is None
    &&& m.context_window is None
    &&& m.max_output_tokens is None
    &&& m.input_price is None
    &&& m.input_price_candidates@.len() == 0
    &&& m.output_price is None
    &&& m.source_url@ == url
}

/// The model ids of a documentation page: those in the text of its code
/// blocks, then those in its embedded JSON documents, each kept once in order
/// of first appearance, as scraped models of the given provider and source.
pub fn extract_model_ids(
    code_texts: &Vec<String>,
    json_blobs: &Vec<JsonValue>,
    provider: &str,
    source_url: &str,
) -> (r: Vec<crate::scraped::ScrapedModel>)
    ensures
        r.len() == crate::scope::dedup(texts_ids(code_texts@) + blobs_ids(json_blobs@)).len(),
        forall|i: int|
            0 <= i < r.len() ==> bare_model(
                #[trigger] r@[i],
                crate::scope::dedup(texts_ids(code_texts@) + blobs_ids(json_blobs@))[i],
                provider@,
                source_url@,
            ),
{
    let mut all: Vec<String> = Vec::new();
    let mut i: usize = 0;
    proof {
        assert(code_texts@.take(0) =~= Seq::<String>::empty());
        assert(views(all@) =~= Seq::<Seq<char>>::empty());
    }
    while i < code_texts.len()
        invariant
            i <= code_texts.len(),
            views(all@) == texts_ids(code_texts@.take(i as int)),
        decreases code_texts.len() - i,
    {
        let found = ids_in_text(code_texts[i].as_str());
        let ghost before = all@;
        let mut k: usize = 0;
        while k < found.len()
            invariant
                k <= found.len(),
                views(all@) == views(before) + views(found@).take(k as int),
            decreases found.len() - k,
        {
            let ghost b2 = all@;
            all.push(found[k].clone());
            proof {
                assert(views(all@) =~= views(b2).push(found@[k as int]@));
                assert(views(found@).take(k + 1) =~= views(found@).take(k as int).push(
                    found@[k as int]@,
                ));
            }
            k = k + 1;
        }
        proof {
            assert(views(found@).take(found.len() as int) =~= views(found@));
            assert(code_texts@.take(i + 1).drop_last() =~= code_texts@.take(i as int));
            assert(code_texts@.take(i + 1).last() == code_texts@[i as int]);
        }
        i = i + 1;
    }
    proof {
        assert(code_texts@.take(code_texts.len() as int) =~= code_texts@);
    }
    let ghost from_texts = views(all@);
    let mut j: usize = 0;
    proof {
        assert(json_blobs@.take(0) =~= Seq::<JsonValue>::empty());
        assert(views(all@) =~= from_texts + Seq::<Seq<char>>::empty());
    }
    while j < json_blobs.len()
        invariant
            j <= json_blobs.len(),
            from_texts == texts_ids(code_texts@),
            views(all@) == from_texts + blobs_ids(json_blobs@.take(j as int)),
        decreases json_blobs.len() - j,
    {
        collect_json_ids(&json_blobs[j], &mut all);
        proof {
            assert(json_blobs@.take(j + 1).drop_last() =~= json_blobs@.take(j as int));
            assert(json_blobs@.take(j + 1).last() == json_blobs@[j as int]);
            assert(views(all@) =~= from_texts + blobs_ids(json_blobs@.take(j + 1)));
        }
        j = j + 1;
    }
    proof {
        assert(json_blobs@.take(json_blobs.len() as int) =~= json_blobs@);
    }
    let ghost allv = views(all@);
    let mut seen: Vec<String> = Vec::new();
    let mut models: Vec<crate::scraped::ScrapedModel> = Vec::new();
    let mut t: usize = 0;
    proof {
        assert(allv.take(0) =~= Seq::<Seq<char>>::empty());
        assert(views(seen@) =~= Seq::<Seq<char>>::empty());
    }
    while t < all.len()
        invariant
            t <= all.len(),
            allv == views(all@),
            views(seen@) == crate::scope::dedup(allv.take(t as int)),
            models.len() == seen.len(),
            forall|q: int|
                0 <= q < models.len() ==> bare_model(
                    #[trigger] models@[q],
                    views(seen@)[q],
                    provider@,
                    source_url@,
                ),
        decreases all.len() - t,
    {
        let id = &all[t];
        proof {
            assert(allv.take(t + 1).drop_last() =~= allv.take(t as int));
            assert(allv.take(t + 1).last() == id@);
        }
        if !crate::scope::contains_text(&seen, id) {
            let ghost sb = seen@;
            let ghost mb = models@;
            let c = id.clone();
            seen.push(c);
            models.push(
                crate::scraped::ScrapedModel {
                    id: id.clone(),
                    provider: provider.to_owned(),
                    display_name: None,
                    context_window: None,
                    max_output_tokens: None,
                    input_price: None,
                    input_price_candidates: Vec::new(),
                    output_price: None,
                    source_url: source_url.to_owned(),
                },
            );
            proof {
                assert(views(seen@) =~= views(sb).push(c@));
                assert forall|q: int| 0 <= q < models.len() implies bare_model(
                    #[trigger] models@[q],
                    views(seen@)[q],
                    provider@,
                    source_url@,
                ) by {
                    if q < mb.len() {
                        assert(models@[q] == mb[q]);
                        assert(views(seen@)[q] == views(sb)[q]);
                    }
                }
            }
        }
        t = t + 1;
    }
    proof {
        assert(allv.take(all.len() as int) =~= allv);
    }
    models
}

} // verus!
