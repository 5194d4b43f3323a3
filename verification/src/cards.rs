//! Spiders that read model details from model-card pages: Mistral (the
//! model id button and title) and Google (the token limits of a model page).
use vstd::prelude::*;
use crate::crawl::{site_links, site_target, strip_trailing_slashes, targets};
use crate::scope::dedup;
use crate::scraped::ScrapedModel;
use crate::spiders::{HtmlResponse, SpiderOutput, owned_list, starts_with_any};
use crate::text::{
    contains_str, ends_with, has_substring, parse_uint, parse_unsigned, starts_with, to_chars,
    to_lowercase, trim, trim_seq, unicode_lower, views,
};
use crate::pricing::no_commas;

verus! {

/// A `<section>` of a model page: the text of its first `<b>` and of its
/// second `<p>` (empty when missing), and the token count that the second
/// text gives when read with an `M` or `K` multiplier (`None` if it gives
/// none).
#[derive(Debug)]
pub struct Section {
    pub label: String,
    pub value: String,
    pub scaled_count: Option<u64>,
}

/// The parts of a model-card page that these spiders read: the texts of its
/// `<h1>` headings, `<button>`s and `<section>`s, in document order.
#[derive(Debug)]
pub struct CardParts {
    pub headings: Vec<String>,
    pub buttons: Vec<String>,
    pub sections: Vec<Section>,
}

/// The position of the last `/` in the text.
pub open spec fn last_slash(s: Seq<char>) -> Option<int>
    decreases s.len(),
{
    if s.len() == 0 {
        None
    } else if s.last() == '/' {
        Some(s.len() - 1)
    } else {
        last_slash(s.drop_last())
    }
}

/// The last path segment of a URL, ignoring trailing slashes.
pub open spec fn last_segment(url: Seq<char>) -> Seq<char> {
    let t = strip_trailing_slashes(url);
    match last_slash(t) {
        Some(i) => t.skip(i + 1),
        None => t,
    }
}

/// The last path segment of a URL, ignoring trailing slashes.
pub fn url_last_segment(url: &str) -> (r: String)
    ensures
        r@ == last_segment(url@),
{
    let v = to_chars(url);
    let mut b: usize = v.len();
    proof {
        assert(v@.subrange(0, v.len() as int) =~= v@);
    }
    while b > 0 && v[b - 1] == '/'
        invariant
            b <= v.len(),
            strip_trailing_slashes(v@) == strip_trailing_slashes(v@.subrange(0, b as int)),
        decreases b,
    {
        proof {
            assert(v@.subrange(0, b as int).drop_last() =~= v@.subrange(0, b - 1));
        }
        b = b - 1;
    }
    let ghost t = v@.subrange(0, b as int);
    proof {
        if b > 0 {
            assert(t.last() == v@[b - 1]);
        }
        assert(strip_trailing_slashes(t) == t);
        assert(t.subrange(0, b as int) =~= t);
    }
    let mut a: usize = b;
    while a > 0 && v[a - 1] != '/'
        invariant
            a <= b <= v.len(),
            t == v@.subrange(0, b as int),
            last_slash(t) == last_slash(t.subrange(0, a as int)),
            forall|x: int| a <= x < b ==> v@[x] != '/',
        decreases a,
    {
        proof {
            assert(t.subrange(0, a as int).drop_last() =~= t.subrange(0, a - 1));
            assert(t.subrange(0, a as int).last() == v@[a - 1]);
        }
        a = a - 1;
    }
    proof {
        if a > 0 {
            assert(t.subrange(0, a as int).last() == v@[a - 1]);
            assert(last_slash(t) == Some(a - 1));
            assert(t.skip(a as int) =~= v@.subrange(a as int, b as int));
        } else {
            assert(t.subrange(0, 0).len() == 0);
            assert(last_slash(t) is None);
            assert(t =~= v@.subrange(0, b as int));
        }
    }
    crate::text::string_of_range(&v, a, b)
}

/// The ids that Mistral documents as canonical model ids: a known family
/// prefix, at most three hyphens, and not a `-latest` alias.
pub open spec fn canonical_mistral(s: Seq<char>) -> bool {
    &&& !"-latest"@.is_suffix_of(s)
    &&& hyphens(s) <= 3
    &&& starts_with_any(
        seq![
            "mistral-"@,
            "codestral-"@,
            "mixtral-"@,
            "pixtral-"@,
            "devstral-"@,
            "voxtral-"@,
            "magistral-"@,
            "ministral-"@,
            "leanstral-"@,
            "labs-"@,
            "open-mistral-"@,
            "open-mixtral-"@,
            "ocr-"@,
        ],
        s,
    )
}

pub open spec fn hyphens(s: Seq<char>) -> nat
    decreases s.len(),
{
    if s.len() == 0 {
        0
    } else {
        hyphens(s.drop_last()) + if s.last() == '-' {
            1nat
        } else {
            0nat
        }
    }
}

/// Whether the text is a canonical Mistral model id.
pub fn is_canonical_mistral_id(s: &str) -> (r: bool)
    ensures
        r == canonical_mistral(s@),
{
    let v = to_chars(s);
    let mut n: usize = 0;
    let mut i: usize = 0;
    while i < v.len()
        invariant
            i <= v.len(),
            v@ == s@,
            n as nat == hyphens(v@.take(i as int)),
            n <= i,
        decreases v.len() - i,
    {
        proof {
            assert(v@.take(i + 1).drop_last() =~= v@.take(i as int));
        }
        if v[i] == '-' {
            n = n + 1;
        }
        i = i + 1;
    }
    proof {
        assert(v@.take(v.len() as int) =~= v@);
    }
    let ps: [&str; 13] = [
        "mistral-",
        "codestral-",
        "mixtral-",
        "pixtral-",
        "devstral-",
        "voxtral-",
        "magistral-",
        "ministral-",
        "leanstral-",
        "labs-",
        "open-mistral-",
        "open-mixtral-",
        "ocr-",
    ];
    let list = owned_list(&ps);
    proof {
        assert(ps@.map_values(|x: &str| x@) =~= seq![
            "mistral-"@,
            "codestral-"@,
            "mixtral-"@,
            "pixtral-"@,
            "devstral-"@,
            "voxtral-"@,
            "magistral-"@,
            "ministral-"@,
            "leanstral-"@,
            "labs-"@,
            "open-mistral-"@,
            "open-mixtral-"@,
            "ocr-"@,
        ]);
    }
    let rule = crate::spiders::IdRule::Prefixes(list);
    !ends_with(s, "-latest") && n <= 3 && crate::spiders::keeps(&rule, s)
}


/// A scraped model from a model page: id, provider, title and token limits
/// as read, no prices, and the page as its source.
pub open spec fn card_model(
    m: ScrapedModel,
    id: Seq<char>,
    provider: Seq<char>,
    display: Option<Seq<char>>,
    context: Option<u64>,
    max_output: Option<u64>,
    url: Seq<char>,
) -> bool {
    &&& m.id@ == id
    &&& m.provider@ == provider
    &&& match m.display_name {
        Some(d) => display == Some(d@),
        None => display is None,
    }
    &&& m.context_window == context
    &&& m.max_output_tokens == max_output
    &&& m.input_price is None
    &&& m.input_price_candidates@.len() == 0
    &&& m.output_price is None
    &&& m.source_url@ == url
}

/// The first trimmed button text that is a canonical Mistral id.
pub open spec fn first_canonical(buttons: Seq<Seq<char>>) -> Option<Seq<char>>
    decreases buttons.len(),
{
    if buttons.len() == 0 {
        None
    } else if canonical_mistral(trim_seq(buttons[0])) {
        Some(trim_seq(buttons[0]))
    } else {
        first_canonical(buttons.drop_first())
    }
}

/// The page title: the first heading, trimmed.
pub open spec fn title(headings: Seq<Seq<char>>) -> Option<Seq<char>> {
    if headings.len() > 0 {
        Some(trim_seq(headings[0]))
    } else {
        None
    }
}

fn page_title(headings: &Vec<String>) -> (r: Option<String>)
    ensures
        match r {
            Some(t) => title(views(headings@)) == Some(t@),
            None => title(views(headings@)) is None,
        },
{
    if headings.len() > 0 {
        proof {
            assert(views(headings@)[0] == headings@[0]@);
        }
        Some(trim(headings[0].as_str()))
    } else {
        None
    }
}

fn find_canonical(buttons: &Vec<String>) -> (r: Option<String>)
    ensures
        match r {
            Some(t) => first_canonical(views(buttons@)) == Some(t@),
            None => first_canonical(views(buttons@)) is None,
        },
{
    let ghost bv = views(buttons@);
    let mut i: usize = 0;
    proof {
        assert(bv.skip(0) =~= bv);
    }
    while i < buttons.len()
        invariant
            i <= buttons.len(),
            bv == views(buttons@),
            first_canonical(bv) == first_canonical(bv.skip(i as int)),
        decreases buttons.len() - i,
    {
        proof {
            assert(bv.skip(i as int)[0] == buttons@[i as int]@);
            assert(bv.skip(i as int).drop_first() =~= bv.skip(i + 1));
        }
        let t = trim(buttons[i].as_str());
        if is_canonical_mistral_id(t.as_str()) {
            return Some(t);
        }
        i = i + 1;
    }
    None
}

/// The Mistral spider: model cards linked from the models overview.
#[derive(Debug, Clone, Copy)]
pub struct MistralSpider;

impl MistralSpider {
    pub fn name(&self) -> (r: &'static str)
        ensures
            r@ == "mistral"@,
    {
        "mistral"
    }

    pub fn start_urls(&self) -> (r: Vec<String>)
        ensures
            views(r@) == seq!["https://docs.mistral.ai/getting-started/models/models_overview/"@],
    {
        let u: [&str; 1] = ["https://docs.mistral.ai/getting-started/models/models_overview/"];
        let r = owned_list(&u);
        proof {
            assert(u@.map_values(|s: &str| s@) =~= seq!["https://docs.mistral.ai/getting-started/models/models_overview/"@]);
        }
        r
    }

    /// On a model card, the model whose id is the first canonical id on a
    /// button (else the URL's last segment), titled by the first heading;
    /// elsewhere the model-card links.
    pub fn scrape(&self, res: &HtmlResponse, links: &Vec<String>, card: &CardParts) -> (r: SpiderOutput)
        ensures
            has_substring(res.url@, "/model-cards/"@) ==> ({
                let id = match first_canonical(views(card.buttons@)) {
                    Some(i) => i,
                    None => last_segment(res.url@),
                };
                &&& r.follow_urls@.len() == 0
                &&& id.len() == 0 ==> r.items@.len() == 0
                &&& id.len() > 0 ==> r.items@.len() == 1 && card_model(
                    r.items@[0],
                    id,
                    "mistral"@,
                    title(views(card.headings@)),
                    None,
                    None,
                    res.url@,
                )
            }),
            !has_substring(res.url@, "/model-cards/"@) ==> r.items@.len() == 0 && views(r.follow_urls@) == dedup(
                targets(
                    views(links@),
                    |h: Seq<char>| site_target(h, "https://docs.mistral.ai"@, "/model-cards/"@, false),
                ),
            ),
    {
        if !contains_str(res.url, "/model-cards/") {
            return SpiderOutput {
                items: Vec::new(),
                follow_urls: site_links(links, "https://docs.mistral.ai", "/model-cards/", false),
            };
        }
        let id = match find_canonical(&card.buttons) {
            Some(i) => i,
            None => url_last_segment(res.url),
        };
        let mut items: Vec<ScrapedModel> = Vec::new();
        if !id.as_str().is_empty() {
            items.push(ScrapedModel {
                id,
                provider: "mistral".to_owned(),
                display_name: page_title(&card.headings),
                context_window: None,
                max_output_tokens: None,
                input_price: None,
                input_price_candidates: Vec::new(),
                output_price: None,
                source_url: res.url.to_owned(),
            });
        }
        SpiderOutput::new().items(items)
    }
}

/// A token count: the text without commas as a whole number, else the count
/// read with a multiplier.
pub open spec fn token_count(value: Seq<char>, scaled: Option<u64>) -> Option<u64> {
    match parse_unsigned(no_commas(value), u64::MAX as nat) {
        Some(n) => Some(n as u64),
        None => scaled,
    }
}

/// The input and output token limits that the sections state; a later
/// section overrides an earlier one.
pub open spec fn limits(ss: Seq<Section>) -> (Option<u64>, Option<u64>)
    decreases ss.len(),
{
    if ss.len() == 0 {
        (None, None)
    } else {
        let (c, o) = limits(ss.drop_last());
        let s = ss.last();
        let label = unicode_lower(s.label@);
        if has_substring(label, "input token limit"@) {
            (token_count(trim_seq(s.value@), s.scaled_count), o)
        } else if has_substring(label, "output token limit"@) {
            (c, token_count(trim_seq(s.value@), s.scaled_count))
        } else {
            (c, o)
        }
    }
}

fn remove_commas(s: &str) -> (r: String)
    ensures
        r@ == no_commas(s@),
{
    let v = to_chars(s);
    let mut out: Vec<char> = Vec::new();
    let mut i: usize = 0;
    while i < v.len()
        invariant
            i <= v.len(),
            out@ == no_commas(v@.take(i as int)),
        decreases v.len() - i,
    {
        proof {
            assert(v@.take(i + 1).drop_last() =~= v@.take(i as int));
        }
        if v[i] != ',' {
            out.push(v[i]);
        }
        i = i + 1;
    }
    proof {
        assert(v@.take(v.len() as int) =~= v@);
    }
    crate::text::from_chars(out)
}

fn read_token_count(value: &str, scaled: Option<u64>) -> (r: Option<u64>)
    ensures
        r == token_count(value@, scaled),
{
    let digits = remove_commas(value);
    match parse_uint(digits.as_str(), u64::MAX) {
        Some(n) => Some(n),
        None => scaled,
    }
}

fn read_limits(sections: &Vec<Section>) -> (r: (Option<u64>, Option<u64>))
    ensures
        r == limits(sections@),
{
    let mut c: Option<u64> = None;
    let mut o: Option<u64> = None;
    let mut i: usize = 0;
    proof {
        assert(sections@.take(0) =~= Seq::<Section>::empty());
    }
    while i < sections.len()
        invariant
            i <= sections.len(),
            (c, o) == limits(sections@.take(i as int)),
        decreases sections.len() - i,
    {
        let s = &sections[i];
        proof {
            assert(sections@.take(i + 1).drop_last() =~= sections@.take(i as int));
            assert(sections@.take(i + 1).last() == *s);
        }
        let label = to_lowercase(s.label.as_str());
        if contains_str(label.as_str(), "input token limit") {
            let v = trim(s.value.as_str());
            c = read_token_count(v.as_str(), s.scaled_count);
        } else if contains_str(label.as_str(), "output token limit") {
            let v = trim(s.value.as_str());
            o = read_token_count(v.as_str(), s.scaled_count);
        }
        i = i + 1;
    }
    proof {
        assert(sections@.take(sections.len() as int) =~= sections@);
    }
    (c, o)
}

/// The Google (Gemini) spider: model pages linked from the models overview.
#[derive(Debug, Clone, Copy)]
pub struct GoogleSpider;

impl GoogleSpider {
    pub fn name(&self) -> (r: &'static str)
        ensures
            r@ == "google"@,
    {
        "google"
    }

    pub fn start_urls(&self) -> (r: Vec<String>)
        ensures
            views(r@) == seq!["https://ai.google.dev/gemini-api/docs/models"@],
    {
        let u: [&str; 1] = ["https://ai.google.dev/gemini-api/docs/models"];
        let r = owned_list(&u);
        proof {
            assert(u@.map_values(|s: &str| s@) =~= seq!["https://ai.google.dev/gemini-api/docs/models"@]);
        }
        r
    }

    /// On a Gemini or Gemma model page, the model named by the URL's last
    /// segment with its token limits and title; elsewhere the links to model
    /// pages.
    pub fn scrape(&self, res: &HtmlResponse, links: &Vec<String>, card: &CardParts) -> (r: SpiderOutput)
        ensures
            ({
                let detail = has_substring(res.url@, "/docs/models/gemini"@) || has_substring(
                    res.url@,
                    "/docs/models/gemma"@,
                );
                let id = last_segment(res.url@);
                &&& detail ==> r.follow_urls@.len() == 0
                &&& detail && id.len() == 0 ==> r.items@.len() == 0
                &&& detail && id.len() > 0 ==> r.items@.len() == 1 && card_model(
                    r.items@[0],
                    id,
                    "google"@,
                    title(views(card.headings@)),
                    limits(card.sections@).0,
                    limits(card.sections@).1,
                    res.url@,
                )
                &&& !detail ==> r.items@.len() == 0 && views(r.follow_urls@) == dedup(
                    targets(
                        views(links@),
                        |h: Seq<char>| site_target(h, "https://ai.google.dev"@, "/gemini-api/docs/models/"@, true),
                    ),
                )
            }),
    {
        let detail = contains_str(res.url, "/docs/models/gemini") || contains_str(res.url, "/docs/models/gemma");
        if !detail {
            return SpiderOutput {
                items: Vec::new(),
                follow_urls: site_links(links, "https://ai.google.dev", "/gemini-api/docs/models/", true),
            };
        }
        let id = url_last_segment(res.url);
        let mut items: Vec<ScrapedModel> = Vec::new();
        if !id.as_str().is_empty() {
            let (context, max_output) = read_limits(&card.sections);
            items.push(ScrapedModel {
                id,
                provider: "google".to_owned(),
                display_name: page_title(&card.headings),
                context_window: context,
                max_output_tokens: max_output,
                input_price: None,
                input_price_candidates: Vec::new(),
                output_price: None,
                source_url: res.url.to_owned(),
            });
        }
        SpiderOutput::new().items(items)
    }
}

} // verus!
