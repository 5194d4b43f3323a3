//! The provider spiders: where each starts, and which of the ids found on
//! its pages it keeps.
use vstd::prelude::*;
use crate::scraped::ScrapedModel;
use crate::text::{from_chars, has_char, lower, lower_seq, starts_with, to_chars, views};
use crate::model_ids::{JsonValue, bare_model, blobs_ids, extract_model_ids, texts_ids};
use crate::scope::dedup;

verus! {

/// A fetched page: its URL and its body (HTML or JSON).
pub struct HtmlResponse<'a> {
    pub url: &'a str,
    pub body: &'a str,
}

/// What a spider returns from one page.
#[derive(Debug, Default)]
pub struct SpiderOutput {
    /// Models extracted from the page.
    pub items: Vec<ScrapedModel>,
    /// Further URLs to fetch.
    pub follow_urls: Vec<String>,
}

impl SpiderOutput {
    pub fn new() -> (r: Self)
        ensures
            r.items@.len() == 0,
            r.follow_urls@.len() == 0,
    {
        SpiderOutput { items: Vec::new(), follow_urls: Vec::new() }
    }

    /// The same output with these items.
    pub fn items(self, items: Vec<ScrapedModel>) -> (r: Self)
        ensures
            r.items@ == items@,
            r.follow_urls@ == self.follow_urls@,
    {
        SpiderOutput { items, follow_urls: self.follow_urls }
    }

    /// The same output with one more URL to follow.
    pub fn follow(self, url: String) -> (r: Self)
        ensures
            r.items@ == self.items@,
            r.follow_urls@ == self.follow_urls@.push(url),
    {
        let mut out = self;
        out.follow_urls.push(url);
        out
    }
}

/// Which scraped ids a spider keeps.
#[derive(Debug)]
pub enum IdRule {
    /// Every id.
    All,
    /// Ids that start with one of the prefixes.
    Prefixes(Vec<String>),
    /// Ids whose ASCII-lowercased form starts with `qwen`.
    Qwen,
    /// `sonic` and the ids that start with `sonic-`.
    Sonic,
    /// Cohere's own ids: those that start with `cohere-transcribe`, and those
    /// that hold no `:` and start neither with `cohere.` nor with `cohere-`.
    Cohere,
}

pub open spec fn starts_with_any(ps: Seq<Seq<char>>, id: Seq<char>) -> bool {
    exists|k: int| 0 <= k < ps.len() && (#[trigger] ps[k]).is_prefix_of(id)
}

pub open spec fn rule_keeps(rule: IdRule, id: Seq<char>) -> bool {
    match rule {
        IdRule::All => true,
        IdRule::Prefixes(ps) => starts_with_any(views(ps@), id),
        IdRule::Qwen => "qwen"@.is_prefix_of(lower_seq(id)),
        IdRule::Sonic => "sonic-"@.is_prefix_of(id) || id == "sonic"@,
        IdRule::Cohere => "cohere-transcribe"@.is_prefix_of(id) || (!id.contains(':')
            && !"cohere."@.is_prefix_of(id) && !"cohere-"@.is_prefix_of(id)),
    }
}

fn any_prefix(ps: &Vec<String>, id: &str) -> (r: bool)
    ensures
        r == starts_with_any(views(ps@), id@),
{
    let mut i: usize = 0;
    while i < ps.len()
        invariant
            i <= ps.len(),
            forall|k: int| 0 <= k < i ==> !ps@[k]@.is_prefix_of(id@),
        decreases ps.len() - i,
    {
        if starts_with(id, ps[i].as_str()) {
            proof {
                assert(views(ps@)[i as int] == ps@[i as int]@);
            }
            return true;
        }
        i = i + 1;
    }
    proof {
        assert forall|k: int| 0 <= k < views(ps@).len() implies !(#[trigger] views(
            ps@,
        )[k]).is_prefix_of(id@) by {
            assert(views(ps@)[k] == ps@[k]@);
        }
    }
    false
}

/// Whether the rule keeps the id.
pub fn keeps(rule: &IdRule, id: &str) -> (r: bool)
    ensures
        r == rule_keeps(*rule, id@),
{
    match rule {
        IdRule::All => true,
        IdRule::Prefixes(ps) => any_prefix(ps, id),
        IdRule::Qwen => {
            let l = lower(id);
            starts_with(l.as_str(), "qwen")
        },
        IdRule::Sonic => {
            let s = "sonic".to_owned();
            let t = id.to_owned();
            starts_with(id, "sonic-") || t == s
        },
        IdRule::Cohere => starts_with(id, "cohere-transcribe") || (!has_char(id, ':')
            && !starts_with(id, "cohere.") && !starts_with(id, "cohere-")),
    }
}

/// The models whose id the rule keeps, in order.
pub fn retain_models(models: Vec<ScrapedModel>, rule: &IdRule) -> (r: Vec<ScrapedModel>)
    ensures
        r@ == models@.filter(|m: ScrapedModel| rule_keeps(*rule, m.id@)),
{
    let ghost orig = models@;
    let mut out: Vec<ScrapedModel> = Vec::new();
    for m in it: models.into_iter()
        invariant
            it.seq() == orig,
            out@ == orig.take(it.index() as int).filter(
                |m: ScrapedModel| rule_keeps(*rule, m.id@),
            ),
    {
        proof {
            reveal(Seq::filter);
            assert(orig.take(it.index() + 1).drop_last() =~= orig.take(it.index() as int));
        }
        if keeps(rule, m.id.as_str()) {
            out.push(m);
        }
    }
    proof {
        assert(orig.take(orig.len() as int) =~= orig);
    }
    out
}

/// A rule made of the given prefixes.
pub fn prefix_rule(ps: &[&str]) -> (r: IdRule)
    ensures
        r matches IdRule::Prefixes(v) && views(v@) == ps@.map_values(|s: &str| s@),
{
    let mut v: Vec<String> = Vec::new();
    let mut i: usize = 0;
    while i < ps.len()
        invariant
            i <= ps.len(),
            views(v@) == ps@.take(i as int).map_values(|s: &str| s@),
        decreases ps.len() - i,
    {
        let ghost before = v@;
        let s = ps[i].to_owned();
        v.push(s);
        proof {
            assert(views(v@) =~= views(before).push(s@));
            assert(ps@.take(i + 1).map_values(|s: &str| s@) =~= ps@.take(i as int).map_values(
                |s: &str| s@,
            ).push(ps@[i as int]@));
        }
        i = i + 1;
    }
    proof {
        assert(ps@.take(ps.len() as int) =~= ps@);
    }
    IdRule::Prefixes(v)
}


/// What the spiders read from a fetched HTML page: the text of its code
/// blocks, its embedded JSON documents, and the targets of its links, each
/// in document order.
#[derive(Debug)]
pub struct PageParts {
    pub code_texts: Vec<String>,
    pub json_blobs: Vec<JsonValue>,
    pub links: Vec<String>,
}

/// The model ids of a page, each once, in order of first appearance.
pub open spec fn page_ids(p: PageParts) -> Seq<Seq<char>> {
    dedup(texts_ids(p.code_texts@) + blobs_ids(p.json_blobs@))
}

/// The models carry exactly the given ids, in order, and nothing but their
/// provider and source.
pub open spec fn bare_models(ms: Seq<ScrapedModel>, ids: Seq<Seq<char>>, provider: Seq<char>, url: Seq<char>) -> bool {
    &&& ms.len() == ids.len()
    &&& forall|i: int| 0 <= i < ms.len() ==> bare_model(#[trigger] ms[i], ids[i], provider, url)
}

/// The models of a page's ids.
pub fn page_models(page: &PageParts, provider: &str, url: &str) -> (r: Vec<ScrapedModel>)
    ensures
        bare_models(r@, page_ids(*page), provider@, url@),
{
    extract_model_ids(&page.code_texts, &page.json_blobs, provider, url)
}

proof fn lemma_filter_bare(ms: Seq<ScrapedModel>, ids: Seq<Seq<char>>, rule: IdRule, provider: Seq<char>, url: Seq<char>)
    requires
        bare_models(ms, ids, provider, url),
    ensures
        bare_models(
            ms.filter(|m: ScrapedModel| rule_keeps(rule, m.id@)),
            ids.filter(|i: Seq<char>| rule_keeps(rule, i)),
            provider,
            url,
        ),
    decreases ms.len(),
{
    reveal(Seq::filter);
    if ms.len() > 0 {
        lemma_filter_bare(ms.drop_last(), ids.drop_last(), rule, provider, url);
        assert(bare_model(ms.last(), ids.last(), provider, url));
        let fm = ms.drop_last().filter(|m: ScrapedModel| rule_keeps(rule, m.id@));
        let fi = ids.drop_last().filter(|i: Seq<char>| rule_keeps(rule, i));
        if rule_keeps(rule, ms.last().id@) {
            assert(ms.filter(|m: ScrapedModel| rule_keeps(rule, m.id@)) == fm.push(ms.last()));
            assert(ids.filter(|i: Seq<char>| rule_keeps(rule, i)) == fi.push(ids.last()));
            assert forall|i: int| 0 <= i < fm.len() + 1 implies bare_model(
                #[trigger] fm.push(ms.last())[i],
                fi.push(ids.last())[i],
                provider,
                url,
            ) by {
                if i < fm.len() {
                    assert(fm.push(ms.last())[i] == fm[i]);
                    assert(fi.push(ids.last())[i] == fi[i]);
                }
            }
        }
    }
}

/// The models of a page's ids that the rule keeps.
pub fn keep_page_models(page: &PageParts, provider: &str, url: &str, rule: &IdRule) -> (r: Vec<ScrapedModel>)
    ensures
        bare_models(r@, page_ids(*page).filter(|i: Seq<char>| rule_keeps(*rule, i)), provider@, url@),
{
    let found = page_models(page, provider, url);
    proof {
        lemma_filter_bare(found@, page_ids(*page), *rule, provider@, url@);
    }
    retain_models(found, rule)
}

/// The given texts as owned strings.
pub fn owned_list(items: &[&str]) -> (r: Vec<String>)
    ensures
        views(r@) == items@.map_values(|s: &str| s@),
{
    let mut v: Vec<String> = Vec::new();
    let mut i: usize = 0;
    while i < items.len()
        invariant
            i <= items.len(),
            views(v@) == items@.take(i as int).map_values(|s: &str| s@),
        decreases items.len() - i,
    {
        let ghost before = v@;
        let s = items[i].to_owned();
        v.push(s);
        proof {
            assert(views(v@) =~= views(before).push(s@));
            assert(items@.take(i + 1).map_values(|s: &str| s@) =~= items@.take(i as int).map_values(
                |s: &str| s@,
            ).push(items@[i as int]@));
        }
        i = i + 1;
    }
    proof {
        assert(items@.take(items.len() as int) =~= items@);
    }
    v
}

/// The `zai` spider.
#[derive(Debug, Clone, Copy)]
pub struct ZaiSpider;

impl ZaiSpider {
    pub fn name(&self) -> (r: &'static str)
        ensures
            r@ == "zai"@,
    {
        "zai"
    }

    /// The pages that the spider fetches first.
    pub fn start_urls(&self) -> (r: Vec<String>)
        ensures
            views(r@) == seq!["https://docs.z.ai/"@],
    {
        let u: [&str; 1] = ["https://docs.z.ai/"];
        let r = owned_list(&u);
        proof {
            assert(u@.map_values(|s: &str| s@) =~= seq!["https://docs.z.ai/"@]);
        }
        r
    }

    /// Which ids found on its pages the spider keeps.
    pub open spec fn keeps(&self, id: Seq<char>) -> bool {
        starts_with_any(seq!["glm-"@], id)
    }

    /// The models of a page that the spider keeps; it follows no links.
    pub fn scrape(&self, res: &HtmlResponse, page: &PageParts) -> (r: SpiderOutput)
        ensures
            r.follow_urls@.len() == 0,
            bare_models(r.items@, page_ids(*page).filter(|i: Seq<char>| self.keeps(i)), "zai"@, res.url@),
    {
        let ps: [&str; 1] = ["glm-"];
        let rule = prefix_rule(&ps);
        proof {
            assert(ps@.map_values(|s: &str| s@) =~= seq!["glm-"@]);
        }
        let items = keep_page_models(page, "zai", res.url, &rule);
        proof {
            assert((|i: Seq<char>| rule_keeps(rule, i)) =~= (|i: Seq<char>| self.keeps(i)));
        }
        SpiderOutput::new().items(items)
    }
}


/// The `openai` spider.
#[derive(Debug, Clone, Copy)]
pub struct OpenAiSpider;

impl OpenAiSpider {
    pub fn name(&self) -> (r: &'static str)
        ensures
            r@ == "openai"@,
    {
        "openai"
    }

    /// The pages that the spider fetches first.
    pub fn start_urls(&self) -> (r: Vec<String>)
        ensures
            views(r@) == seq!["https://platform.openai.com/docs/models"@],
    {
        let u: [&str; 1] = ["https://platform.openai.com/docs/models"];
        let r = owned_list(&u);
        proof {
            assert(u@.map_values(|s: &str| s@) =~= seq!["https://platform.openai.com/docs/models"@]);
        }
        r
    }

    /// Which ids found on its pages the spider keeps.
    pub open spec fn keeps(&self, id: Seq<char>) -> bool {
        true
    }

    /// The models of a page; it follows no links.
    pub fn scrape(&self, res: &HtmlResponse, page: &PageParts) -> (r: SpiderOutput)
        ensures
            r.follow_urls@.len() == 0,
            bare_models(r.items@, page_ids(*page).filter(|i: Seq<char>| self.keeps(i)), "openai"@, res.url@),
    {
        let rule = IdRule::All;
        let items = keep_page_models(page, "openai", res.url, &rule);
        proof {
            assert((|i: Seq<char>| rule_keeps(rule, i)) =~= (|i: Seq<char>| self.keeps(i)));
        }
        SpiderOutput::new().items(items)
    }
}

/// The `perplexity` spider.
#[derive(Debug, Clone, Copy)]
pub struct PerplexitySpider;

impl PerplexitySpider {
    pub fn name(&self) -> (r: &'static str)
        ensures
            r@ == "perplexity"@,
    {
        "perplexity"
    }

    /// The pages that the spider fetches first.
    pub fn start_urls(&self) -> (r: Vec<String>)
        ensures
            views(r@) == seq!["https://docs.perplexity.ai/guides/model-cards"@],
    {
        let u: [&str; 1] = ["https://docs.perplexity.ai/guides/model-cards"];
        let r = owned_list(&u);
        proof {
            assert(u@.map_values(|s: &str| s@) =~= seq!["https://docs.perplexity.ai/guides/model-cards"@]);
        }
        r
    }

    /// Which ids found on its pages the spider keeps.
    pub open spec fn keeps(&self, id: Seq<char>) -> bool {
        true
    }

    /// The models of a page; it follows no links.
    pub fn scrape(&self, res: &HtmlResponse, page: &PageParts) -> (r: SpiderOutput)
        ensures
            r.follow_urls@.len() == 0,
            bare_models(r.items@, page_ids(*page).filter(|i: Seq<char>| self.keeps(i)), "perplexity"@, res.url@),
    {
        let rule = IdRule::All;
        let items = keep_page_models(page, "perplexity", res.url, &rule);
        proof {
            assert((|i: Seq<char>| rule_keeps(rule, i)) =~= (|i: Seq<char>| self.keeps(i)));
        }
        SpiderOutput::new().items(items)
    }
}

/// The `xai` spider.
#[derive(Debug, Clone, Copy)]
pub struct XaiSpider;

impl XaiSpider {
    pub fn name(&self) -> (r: &'static str)
        ensures
            r@ == "xai"@,
    {
        "xai"
    }

    /// The pages that the spider fetches first.
    pub fn start_urls(&self) -> (r: Vec<String>)
        ensures
            views(r@) == seq!["https://docs.x.ai/docs/models"@],
    {
        let u: [&str; 1] = ["https://docs.x.ai/docs/models"];
        let r = owned_list(&u);
        proof {
            assert(u@.map_values(|s: &str| s@) =~= seq!["https://docs.x.ai/docs/models"@]);
        }
        r
    }

    /// Which ids found on its pages the spider keeps.
    pub open spec fn keeps(&self, id: Seq<char>) -> bool {
        true
    }

    /// The models of a page; it follows no links.
    pub fn scrape(&self, res: &HtmlResponse, page: &PageParts) -> (r: SpiderOutput)
        ensures
            r.follow_urls@.len() == 0,
            bare_models(r.items@, page_ids(*page).filter(|i: Seq<char>| self.keeps(i)), "xai"@, res.url@),
    {
        let rule = IdRule::All;
        let items = keep_page_models(page, "xai", res.url, &rule);
        proof {
            assert((|i: Seq<char>| rule_keeps(rule, i)) =~= (|i: Seq<char>| self.keeps(i)));
        }
        SpiderOutput::new().items(items)
    }
}

/// The `alibaba` spider.
#[derive(Debug, Clone, Copy)]
pub struct AlibabaSpider;

impl AlibabaSpider {
    pub fn name(&self) -> (r: &'static str)
        ensures
            r@ == "alibaba"@,
    {
        "alibaba"
    }

    /// The pages that the spider fetches first.
    pub fn start_urls(&self) -> (r: Vec<String>)
        ensures
            views(r@) == seq!["https://www.alibabacloud.com/help/en/model-studio/getting-started/models"@],
    {
        let u: [&str; 1] = ["https://www.alibabacloud.com/help/en/model-studio/getting-started/models"];
        let r = owned_list(&u);
        proof {
            assert(u@.map_values(|s: &str| s@) =~= seq!["https://www.alibabacloud.com/help/en/model-studio/getting-started/models"@]);
        }
        r
    }

    /// Which ids found on its pages the spider keeps.
    pub open spec fn keeps(&self, id: Seq<char>) -> bool {
        rule_keeps(IdRule::Qwen, id)
    }

    /// The models of a page that the spider keeps; it follows no links.
    pub fn scrape(&self, res: &HtmlResponse, page: &PageParts) -> (r: SpiderOutput)
        ensures
            r.follow_urls@.len() == 0,
            bare_models(r.items@, page_ids(*page).filter(|i: Seq<char>| self.keeps(i)), "alibaba"@, res.url@),
    {
        let rule = IdRule::Qwen;
        let items = keep_page_models(page, "alibaba", res.url, &rule);
        proof {
            assert((|i: Seq<char>| rule_keeps(rule, i)) =~= (|i: Seq<char>| self.keeps(i)));
        }
        SpiderOutput::new().items(items)
    }
}

/// The `cohere` spider.
#[derive(Debug, Clone, Copy)]
pub struct CohereSpider;

impl CohereSpider {
    pub fn name(&self) -> (r: &'static str)
        ensures
            r@ == "cohere"@,
    {
        "cohere"
    }

    /// The pages that the spider fetches first.
    pub fn start_urls(&self) -> (r: Vec<String>)
        ensures
            views(r@) == seq!["https://docs.cohere.com/v2/docs/models"@],
    {
        let u: [&str; 1] = ["https://docs.cohere.com/v2/docs/models"];
        let r = owned_list(&u);
        proof {
            assert(u@.map_values(|s: &str| s@) =~= seq!["https://docs.cohere.com/v2/docs/models"@]);
        }
        r
    }

    /// Which ids found on its pages the spider keeps.
    pub open spec fn keeps(&self, id: Seq<char>) -> bool {
        rule_keeps(IdRule::Cohere, id)
    }

    /// The models of a page that the spider keeps; it follows no links.
    pub fn scrape(&self, res: &HtmlResponse, page: &PageParts) -> (r: SpiderOutput)
        ensures
            r.follow_urls@.len() == 0,
            bare_models(r.items@, page_ids(*page).filter(|i: Seq<char>| self.keeps(i)), "cohere"@, res.url@),
    {
        let rule = IdRule::Cohere;
        let items = keep_page_models(page, "cohere", res.url, &rule);
        proof {
            assert((|i: Seq<char>| rule_keeps(rule, i)) =~= (|i: Seq<char>| self.keeps(i)));
        }
        SpiderOutput::new().items(items)
    }
}

/// The `cartesia` spider.
#[derive(Debug, Clone, Copy)]
pub struct CartesiaSpider;

impl CartesiaSpider {
    pub fn name(&self) -> (r: &'static str)
        ensures
            r@ == "cartesia"@,
    {
        "cartesia"
    }

    /// The pages that the spider fetches first.
    pub fn start_urls(&self) -> (r: Vec<String>)
        ensures
            views(r@) == seq!["https://docs.cartesia.ai/build-with-cartesia/tts-models/api-changes"@],
    {
        let u: [&str; 1] = ["https://docs.cartesia.ai/build-with-cartesia/tts-models/api-changes"];
        let r = owned_list(&u);
        proof {
            assert(u@.map_values(|s: &str| s@) =~= seq!["https://docs.cartesia.ai/build-with-cartesia/tts-models/api-changes"@]);
        }
        r
    }

    /// Which ids found on its pages the spider keeps.
    pub open spec fn keeps(&self, id: Seq<char>) -> bool {
        rule_keeps(IdRule::Sonic, id)
    }

    /// The models of a page that the spider keeps; it follows no links.
    pub fn scrape(&self, res: &HtmlResponse, page: &PageParts) -> (r: SpiderOutput)
        ensures
            r.follow_urls@.len() == 0,
            bare_models(r.items@, page_ids(*page).filter(|i: Seq<char>| self.keeps(i)), "cartesia"@, res.url@),
    {
        let rule = IdRule::Sonic;
        let items = keep_page_models(page, "cartesia", res.url, &rule);
        proof {
            assert((|i: Seq<char>| rule_keeps(rule, i)) =~= (|i: Seq<char>| self.keeps(i)));
        }
        SpiderOutput::new().items(items)
    }
}

/// The `bytedance` spider.
#[derive(Debug, Clone, Copy)]
pub struct ByteDanceSpider;

impl ByteDanceSpider {
    pub fn name(&self) -> (r: &'static str)
        ensures
            r@ == "bytedance"@,
    {
        "bytedance"
    }

    /// The pages that the spider fetches first.
    pub fn start_urls(&self) -> (r: Vec<String>)
        ensures
            views(r@) == seq!["https://www.volcengine.com/docs/82379/1382513"@],
    {
        let u: [&str; 1] = ["https://www.volcengine.com/docs/82379/1382513"];
        let r = owned_list(&u);
        proof {
            assert(u@.map_values(|s: &str| s@) =~= seq!["https://www.volcengine.com/docs/82379/1382513"@]);
        }
        r
    }

    /// Which ids found on its pages the spider keeps.
    pub open spec fn keeps(&self, id: Seq<char>) -> bool {
        starts_with_any(seq!["doubao-"@, "seed-"@, "seed3d-"@, "seedance-"@, "seedream-"@], id)
    }

    /// The models of a page that the spider keeps; it follows no links.
    pub fn scrape(&self, res: &HtmlResponse, page: &PageParts) -> (r: SpiderOutput)
        ensures
            r.follow_urls@.len() == 0,
            bare_models(r.items@, page_ids(*page).filter(|i: Seq<char>| self.keeps(i)), "bytedance"@, res.url@),
    {
        let ps: [&str; 5] = ["doubao-", "seed-", "seed3d-", "seedance-", "seedream-"];
        let rule = prefix_rule(&ps);
        proof {
            assert(ps@.map_values(|s: &str| s@) =~= seq!["doubao-"@, "seed-"@, "seed3d-"@, "seedance-"@, "seedream-"@]);
        }
        let items = keep_page_models(page, "bytedance", res.url, &rule);
        proof {
            assert((|i: Seq<char>| rule_keeps(rule, i)) =~= (|i: Seq<char>| self.keeps(i)));
        }
        SpiderOutput::new().items(items)
    }
}

/// The `elevenlabs` spider.
#[derive(Debug, Clone, Copy)]
pub struct ElevenLabsSpider;

impl ElevenLabsSpider {
    pub fn name(&self) -> (r: &'static str)
        ensures
            r@ == "elevenlabs"@,
    {
        "elevenlabs"
    }

    /// The pages that the spider fetches first.
    pub fn start_urls(&self) -> (r: Vec<String>)
        ensures
            views(r@) == seq!["https://elevenlabs.io/docs/models"@],
    {
        let u: [&str; 1] = ["https://elevenlabs.io/docs/models"];
        let r = owned_list(&u);
        proof {
            assert(u@.map_values(|s: &str| s@) =~= seq!["https://elevenlabs.io/docs/models"@]);
        }
        r
    }

    /// Which ids found on its pages the spider keeps.
    pub open spec fn keeps(&self, id: Seq<char>) -> bool {
        starts_with_any(seq!["eleven_"@, "eleven-"@], id)
    }

    /// The models of a page that the spider keeps; it follows no links.
    pub fn scrape(&self, res: &HtmlResponse, page: &PageParts) -> (r: SpiderOutput)
        ensures
            r.follow_urls@.len() == 0,
            bare_models(r.items@, page_ids(*page).filter(|i: Seq<char>| self.keeps(i)), "elevenlabs"@, res.url@),
    {
        let ps: [&str; 2] = ["eleven_", "eleven-"];
        let rule = prefix_rule(&ps);
        proof {
            assert(ps@.map_values(|s: &str| s@) =~= seq!["eleven_"@, "eleven-"@]);
        }
        let items = keep_page_models(page, "elevenlabs", res.url, &rule);
        proof {
            assert((|i: Seq<char>| rule_keeps(rule, i)) =~= (|i: Seq<char>| self.keeps(i)));
        }
        SpiderOutput::new().items(items)
    }
}

/// The `heygen` spider.
#[derive(Debug, Clone, Copy)]
pub struct HeyGenSpider;

impl HeyGenSpider {
    pub fn name(&self) -> (r: &'static str)
        ensures
            r@ == "heygen"@,
    {
        "heygen"
    }

    /// The pages that the spider fetches first.
    pub fn start_urls(&self) -> (r: Vec<String>)
        ensures
            views(r@) == seq!["https://docs.heygen.com/reference/list-voices-v2"@],
    {
        let u: [&str; 1] = ["https://docs.heygen.com/reference/list-voices-v2"];
        let r = owned_list(&u);
        proof {
            assert(u@.map_values(|s: &str| s@) =~= seq!["https://docs.heygen.com/reference/list-voices-v2"@]);
        }
        r
    }

    /// Which ids found on its pages the spider keeps.
    pub open spec fn keeps(&self, id: Seq<char>) -> bool {
        starts_with_any(seq!["avatar-"@], id)
    }

    /// The models of a page that the spider keeps; it follows no links.
    pub fn scrape(&self, res: &HtmlResponse, page: &PageParts) -> (r: SpiderOutput)
        ensures
            r.follow_urls@.len() == 0,
            bare_models(r.items@, page_ids(*page).filter(|i: Seq<char>| self.keeps(i)), "heygen"@, res.url@),
    {
        let ps: [&str; 1] = ["avatar-"];
        let rule = prefix_rule(&ps);
        proof {
            assert(ps@.map_values(|s: &str| s@) =~= seq!["avatar-"@]);
        }
        let items = keep_page_models(page, "heygen", res.url, &rule);
        proof {
            assert((|i: Seq<char>| rule_keeps(rule, i)) =~= (|i: Seq<char>| self.keeps(i)));
        }
        SpiderOutput::new().items(items)
    }
}

/// The `ideogram` spider.
#[derive(Debug, Clone, Copy)]
pub struct IdeogramSpider;

impl IdeogramSpider {
    pub fn name(&self) -> (r: &'static str)
        ensures
            r@ == "ideogram"@,
    {
        "ideogram"
    }

    /// The pages that the spider fetches first.
    pub fn start_urls(&self) -> (r: Vec<String>)
        ensures
            views(r@) == seq!["https://developer.ideogram.ai/api-reference/api-reference/generate"@],
    {
        let u: [&str; 1] = ["https://developer.ideogram.ai/api-reference/api-reference/generate"];
        let r = owned_list(&u);
        proof {
            assert(u@.map_values(|s: &str| s@) =~= seq!["https://developer.ideogram.ai/api-reference/api-reference/generate"@]);
        }
        r
    }

    /// Which ids found on its pages the spider keeps.
    pub open spec fn keeps(&self, id: Seq<char>) -> bool {
        starts_with_any(seq!["ideogram-"@], id)
    }

    /// The models of a page that the spider keeps; it follows no links.
    pub fn scrape(&self, res: &HtmlResponse, page: &PageParts) -> (r: SpiderOutput)
        ensures
            r.follow_urls@.len() == 0,
            bare_models(r.items@, page_ids(*page).filter(|i: Seq<char>| self.keeps(i)), "ideogram"@, res.url@),
    {
        let ps: [&str; 1] = ["ideogram-"];
        let rule = prefix_rule(&ps);
        proof {
            assert(ps@.map_values(|s: &str| s@) =~= seq!["ideogram-"@]);
        }
        let items = keep_page_models(page, "ideogram", res.url, &rule);
        proof {
            assert((|i: Seq<char>| rule_keeps(rule, i)) =~= (|i: Seq<char>| self.keeps(i)));
        }
        SpiderOutput::new().items(items)
    }
}

/// The `inception` spider.
#[derive(Debug, Clone, Copy)]
pub struct InceptionSpider;

impl InceptionSpider {
    pub fn name(&self) -> (r: &'static str)
        ensures
            r@ == "inception"@,
    {
        "inception"
    }

    /// The pages that the spider fetches first.
    pub fn start_urls(&self) -> (r: Vec<String>)
        ensures
            views(r@) == seq!["https://docs.inceptionlabs.ai/"@],
    {
        let u: [&str; 1] = ["https://docs.inceptionlabs.ai/"];
        let r = owned_list(&u);
        proof {
            assert(u@.map_values(|s: &str| s@) =~= seq!["https://docs.inceptionlabs.ai/"@]);
        }
        r
    }

    /// Which ids found on its pages the spider keeps.
    pub open spec fn keeps(&self, id: Seq<char>) -> bool {
        starts_with_any(seq!["mercury-"@], id)
    }

    /// The models of a page that the spider keeps; it follows no links.
    pub fn scrape(&self, res: &HtmlResponse, page: &PageParts) -> (r: SpiderOutput)
        ensures
            r.follow_urls@.len() == 0,
            bare_models(r.items@, page_ids(*page).filter(|i: Seq<char>| self.keeps(i)), "inception"@, res.url@),
    {
        let ps: [&str; 1] = ["mercury-"];
        let rule = prefix_rule(&ps);
        proof {
            assert(ps@.map_values(|s: &str| s@) =~= seq!["mercury-"@]);
        }
        let items = keep_page_models(page, "inception", res.url, &rule);
        proof {
            assert((|i: Seq<char>| rule_keeps(rule, i)) =~= (|i: Seq<char>| self.keeps(i)));
        }
        SpiderOutput::new().items(items)
    }
}

/// The `leonardo` spider.
#[derive(Debug, Clone, Copy)]
pub struct LeonardoSpider;

impl LeonardoSpider {
    pub fn name(&self) -> (r: &'static str)
        ensures
            r@ == "leonardo"@,
    {
        "leonardo"
    }

    /// The pages that the spider fetches first.
    pub fn start_urls(&self) -> (r: Vec<String>)
        ensures
            views(r@) == seq!["https://docs.leonardo.ai/"@],
    {
        let u: [&str; 1] = ["https://docs.leonardo.ai/"];
        let r = owned_list(&u);
        proof {
            assert(u@.map_values(|s: &str| s@) =~= seq!["https://docs.leonardo.ai/"@]);
        }
        r
    }

    /// Which ids found on its pages the spider keeps.
    pub open spec fn keeps(&self, id: Seq<char>) -> bool {
        starts_with_any(seq!["phoenix-"@, "kino-"@, "diffusion-"@, "vision-"@, "leonardo-"@, "albedo-"@], id)
    }

    /// The models of a page that the spider keeps; it follows no links.
    pub fn scrape(&self, res: &HtmlResponse, page: &PageParts) -> (r: SpiderOutput)
        ensures
            r.follow_urls@.len() == 0,
            bare_models(r.items@, page_ids(*page).filter(|i: Seq<char>| self.keeps(i)), "leonardo"@, res.url@),
    {
        let ps: [&str; 6] = ["phoenix-", "kino-", "diffusion-", "vision-", "leonardo-", "albedo-"];
        let rule = prefix_rule(&ps);
        proof {
            assert(ps@.map_values(|s: &str| s@) =~= seq!["phoenix-"@, "kino-"@, "diffusion-"@, "vision-"@, "leonardo-"@, "albedo-"@]);
        }
        let items = keep_page_models(page, "leonardo", res.url, &rule);
        proof {
            assert((|i: Seq<char>| rule_keeps(rule, i)) =~= (|i: Seq<char>| self.keeps(i)));
        }
        SpiderOutput::new().items(items)
    }
}

/// The `luma` spider.
#[derive(Debug, Clone, Copy)]
pub struct LumaSpider;

impl LumaSpider {
    pub fn name(&self) -> (r: &'static str)
        ensures
            r@ == "luma"@,
    {
        "luma"
    }

    /// The pages that the spider fetches first.
    pub fn start_urls(&self) -> (r: Vec<String>)
        ensures
            views(r@) == seq!["https://docs.lumalabs.ai/"@],
    {
        let u: [&str; 1] = ["https://docs.lumalabs.ai/"];
        let r = owned_list(&u);
        proof {
            assert(u@.map_values(|s: &str| s@) =~= seq!["https://docs.lumalabs.ai/"@]);
        }
        r
    }

    /// Which ids found on its pages the spider keeps.
    pub open spec fn keeps(&self, id: Seq<char>) -> bool {
        starts_with_any(seq!["ray-"@, "photon-"@, "dream-machine"@], id)
    }

    /// The models of a page that the spider keeps; it follows no links.
    pub fn scrape(&self, res: &HtmlResponse, page: &PageParts) -> (r: SpiderOutput)
        ensures
            r.follow_urls@.len() == 0,
            bare_models(r.items@, page_ids(*page).filter(|i: Seq<char>| self.keeps(i)), "luma"@, res.url@),
    {
        let ps: [&str; 3] = ["ray-", "photon-", "dream-machine"];
        let rule = prefix_rule(&ps);
        proof {
            assert(ps@.map_values(|s: &str| s@) =~= seq!["ray-"@, "photon-"@, "dream-machine"@]);
        }
        let items = keep_page_models(page, "luma", res.url, &rule);
        proof {
            assert((|i: Seq<char>| rule_keeps(rule, i)) =~= (|i: Seq<char>| self.keeps(i)));
        }
        SpiderOutput::new().items(items)
    }
}

/// The `microsoft` spider.
#[derive(Debug, Clone, Copy)]
pub struct MicrosoftSpider;

impl MicrosoftSpider {
    pub fn name(&self) -> (r: &'static str)
        ensures
            r@ == "microsoft"@,
    {
        "microsoft"
    }

    /// The pages that the spider fetches first.
    pub fn start_urls(&self) -> (r: Vec<String>)
        ensures
            views(r@) == seq!["https://learn.microsoft.com/en-us/azure/ai-services/openai/concepts/models"@],
    {
        let u: [&str; 1] = ["https://learn.microsoft.com/en-us/azure/ai-services/openai/concepts/models"];
        let r = owned_list(&u);
        proof {
            assert(u@.map_values(|s: &str| s@) =~= seq!["https://learn.microsoft.com/en-us/azure/ai-services/openai/concepts/models"@]);
        }
        r
    }

    /// Which ids found on its pages the spider keeps.
    pub open spec fn keeps(&self, id: Seq<char>) -> bool {
        starts_with_any(seq!["phi-"@, "gpt-"@], id)
    }

    /// The models of a page that the spider keeps; it follows no links.
    pub fn scrape(&self, res: &HtmlResponse, page: &PageParts) -> (r: SpiderOutput)
        ensures
            r.follow_urls@.len() == 0,
            bare_models(r.items@, page_ids(*page).filter(|i: Seq<char>| self.keeps(i)), "microsoft"@, res.url@),
    {
        let ps: [&str; 2] = ["phi-", "gpt-"];
        let rule = prefix_rule(&ps);
        proof {
            assert(ps@.map_values(|s: &str| s@) =~= seq!["phi-"@, "gpt-"@]);
        }
        let items = keep_page_models(page, "microsoft", res.url, &rule);
        proof {
            assert((|i: Seq<char>| rule_keeps(rule, i)) =~= (|i: Seq<char>| self.keeps(i)));
        }
        SpiderOutput::new().items(items)
    }
}

/// The `moonshot` spider.
#[derive(Debug, Clone, Copy)]
pub struct MoonshotSpider;

impl MoonshotSpider {
    pub fn name(&self) -> (r: &'static str)
        ensures
            r@ == "moonshot"@,
    {
        "moonshot"
    }

    /// The pages that the spider fetches first.
    pub fn start_urls(&self) -> (r: Vec<String>)
        ensures
            views(r@) == seq!["https://platform.moonshot.cn/docs/intro"@, "https://platform.kimi.ai/docs/models"@],
    {
        let u: [&str; 2] = ["https://platform.moonshot.cn/docs/intro", "https://platform.kimi.ai/docs/models"];
        let r = owned_list(&u);
        proof {
            assert(u@.map_values(|s: &str| s@) =~= seq!["https://platform.moonshot.cn/docs/intro"@, "https://platform.kimi.ai/docs/models"@]);
        }
        r
    }

    /// Which ids found on its pages the spider keeps.
    pub open spec fn keeps(&self, id: Seq<char>) -> bool {
        starts_with_any(seq!["moonshot-"@, "kimi-"@], id)
    }

    /// The models of a page that the spider keeps; it follows no links.
    pub fn scrape(&self, res: &HtmlResponse, page: &PageParts) -> (r: SpiderOutput)
        ensures
            r.follow_urls@.len() == 0,
            bare_models(r.items@, page_ids(*page).filter(|i: Seq<char>| self.keeps(i)), "moonshot"@, res.url@),
    {
        let ps: [&str; 2] = ["moonshot-", "kimi-"];
        let rule = prefix_rule(&ps);
        proof {
            assert(ps@.map_values(|s: &str| s@) =~= seq!["moonshot-"@, "kimi-"@]);
        }
        let items = keep_page_models(page, "moonshot", res.url, &rule);
        proof {
            assert((|i: Seq<char>| rule_keeps(rule, i)) =~= (|i: Seq<char>| self.keeps(i)));
        }
        SpiderOutput::new().items(items)
    }
}

/// The `voyageai` spider.
#[derive(Debug, Clone, Copy)]
pub struct VoyageAiSpider;

impl VoyageAiSpider {
    pub fn name(&self) -> (r: &'static str)
        ensures
            r@ == "voyageai"@,
    {
        "voyageai"
    }

    /// The pages that the spider fetches first.
    pub fn start_urls(&self) -> (r: Vec<String>)
        ensures
            views(r@) == seq!["https://docs.voyageai.com/docs/embeddings"@, "https://docs.voyageai.com/docs/reranker"@, "https://docs.voyageai.com/docs/multimodal-embeddings"@],
    {
        let u: [&str; 3] = ["https://docs.voyageai.com/docs/embeddings", "https://docs.voyageai.com/docs/reranker", "https://docs.voyageai.com/docs/multimodal-embeddings"];
        let r = owned_list(&u);
        proof {
            assert(u@.map_values(|s: &str| s@) =~= seq!["https://docs.voyageai.com/docs/embeddings"@, "https://docs.voyageai.com/docs/reranker"@, "https://docs.voyageai.com/docs/multimodal-embeddings"@]);
        }
        r
    }

    /// Which ids found on its pages the spider keeps.
    pub open spec fn keeps(&self, id: Seq<char>) -> bool {
        starts_with_any(seq!["voyage-"@, "rerank-"@], id)
    }

    /// The models of a page that the spider keeps; it follows no links.
    pub fn scrape(&self, res: &HtmlResponse, page: &PageParts) -> (r: SpiderOutput)
        ensures
            r.follow_urls@.len() == 0,
            bare_models(r.items@, page_ids(*page).filter(|i: Seq<char>| self.keeps(i)), "voyageai"@, res.url@),
    {
        let ps: [&str; 2] = ["voyage-", "rerank-"];
        let rule = prefix_rule(&ps);
        proof {
            assert(ps@.map_values(|s: &str| s@) =~= seq!["voyage-"@, "rerank-"@]);
        }
        let items = keep_page_models(page, "voyageai", res.url, &rule);
        proof {
            assert((|i: Seq<char>| rule_keeps(rule, i)) =~= (|i: Seq<char>| self.keeps(i)));
        }
        SpiderOutput::new().items(items)
    }
}

/// The `xiaomi` spider.
#[derive(Debug, Clone, Copy)]
pub struct XiaomiSpider;

impl XiaomiSpider {
    pub fn name(&self) -> (r: &'static str)
        ensures
            r@ == "xiaomi"@,
    {
        "xiaomi"
    }

    /// The pages that the spider fetches first.
    pub fn start_urls(&self) -> (r: Vec<String>)
        ensures
            views(r@) == seq!["https://huggingface.co/MiMo-AI"@],
    {
        let u: [&str; 1] = ["https://huggingface.co/MiMo-AI"];
        let r = owned_list(&u);
        proof {
            assert(u@.map_values(|s: &str| s@) =~= seq!["https://huggingface.co/MiMo-AI"@]);
        }
        r
    }

    /// Which ids found on its pages the spider keeps.
    pub open spec fn keeps(&self, id: Seq<char>) -> bool {
        starts_with_any(seq!["mimo-"@], id)
    }

    /// The models of a page that the spider keeps; it follows no links.
    pub fn scrape(&self, res: &HtmlResponse, page: &PageParts) -> (r: SpiderOutput)
        ensures
            r.follow_urls@.len() == 0,
            bare_models(r.items@, page_ids(*page).filter(|i: Seq<char>| self.keeps(i)), "xiaomi"@, res.url@),
    {
        let ps: [&str; 1] = ["mimo-"];
        let rule = prefix_rule(&ps);
        proof {
            assert(ps@.map_values(|s: &str| s@) =~= seq!["mimo-"@]);
        }
        let items = keep_page_models(page, "xiaomi", res.url, &rule);
        proof {
            assert((|i: Seq<char>| rule_keeps(rule, i)) =~= (|i: Seq<char>| self.keeps(i)));
        }
        SpiderOutput::new().items(items)
    }
}

} // verus!
