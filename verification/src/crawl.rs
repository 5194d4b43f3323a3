//! Spiders that follow links from an overview page to detail pages, and the
//! link selection they share.
use vstd::prelude::*;
use vstd::string::StringExecFns;
use crate::scope::{contains_text, dedup, lemma_dedup_no_duplicates};
use crate::scraped::ScrapedModel;
use crate::spiders::{
    HtmlResponse, IdRule, PageParts, SpiderOutput, bare_models, keep_page_models, owned_list,
    page_ids, page_models, prefix_rule, rule_keeps, starts_with_any,
};
use crate::text::{contains_str, ends_with, has_char, has_substring, starts_with, to_chars, views};

verus! {

/// The text without the `/` characters at its end.
pub open spec fn strip_trailing_slashes(s: Seq<char>) -> Seq<char>
    decreases s.len(),
{
    if s.len() > 0 && s.last() == '/' {
        strip_trailing_slashes(s.drop_last())
    } else {
        s
    }
}

/// Where a link leads, for links that contain `frag` and no `#`: absolute
/// links as they are, and links from the site root appended to `base`
/// without its trailing slashes. Other links are not followed.
pub open spec fn follow_target(href: Seq<char>, base: Seq<char>, frag: Seq<char>) -> Option<Seq<char>> {
    if !has_substring(href, frag) || href.contains('#') {
        None
    } else if "http"@.is_prefix_of(href) {
        Some(href)
    } else if "/"@.is_prefix_of(href) {
        Some(strip_trailing_slashes(base) + href)
    } else {
        None
    }
}

/// Where a link leads for a spider that appends every relative link to
/// `base`; links ending in `/models` are skipped when `skip_index`.
pub open spec fn site_target(href: Seq<char>, base: Seq<char>, frag: Seq<char>, skip_index: bool) -> Option<Seq<char>> {
    if !has_substring(href, frag) || href.contains('#') || (skip_index && "/models"@.is_suffix_of(href)) {
        None
    } else if "http"@.is_prefix_of(href) {
        Some(href)
    } else {
        Some(base + href)
    }
}

/// The targets of the links, in order, under a choice of target function.
pub open spec fn targets(links: Seq<Seq<char>>, target: spec_fn(Seq<char>) -> Option<Seq<char>>) -> Seq<Seq<char>>
    decreases links.len(),
{
    if links.len() == 0 {
        Seq::empty()
    } else {
        let p = targets(links.drop_last(), target);
        match target(links.last()) {
            Some(u) => p.push(u),
            None => p,
        }
    }
}

fn strip_slashes(s: &str) -> (r: String)
    ensures
        r@ == strip_trailing_slashes(s@),
{
    let v = to_chars(s);
    let mut b: usize = v.len();
    proof {
        assert(v@.subrange(0, v.len() as int) =~= v@);
    }
    while b > 0 && v[b - 1] == '/'
        invariant
            b <= v.len(),
            strip_trailing_slashes(v@) == strip_trailing_slashes(v@.subrange(0, b as int)),
        decreases b,
    {
        proof {
            assert(v@.subrange(0, b as int).drop_last() =~= v@.subrange(0, b - 1));
        }
        b = b - 1;
    }
    crate::text::string_of_range(&v, 0, b)
}

fn follow_target_exec(href: &String, base: &str, frag: &str) -> (r: Option<String>)
    ensures
        match r {
            Some(u) => follow_target(href@, base@, frag@) == Some(u@),
            None => follow_target(href@, base@, frag@) is None,
        },
{
    if !contains_str(href.as_str(), frag) || has_char(href.as_str(), '#') {
        return None;
    }
    if starts_with(href.as_str(), "http") {
        Some(href.clone())
    } else if starts_with(href.as_str(), "/") {
        let b = strip_slashes(base);
        Some(b.concat(href.as_str()))
    } else {
        None
    }
}

fn site_target_exec(href: &String, base: &str, frag: &str, skip_index: bool) -> (r: Option<String>)
    ensures
        match r {
            Some(u) => site_target(href@, base@, frag@, skip_index) == Some(u@),
            None => site_target(href@, base@, frag@, skip_index) is None,
        },
{
    if !contains_str(href.as_str(), frag) || has_char(href.as_str(), '#') || (skip_index && ends_with(
        href.as_str(),
        "/models",
    )) {
        return None;
    }
    if starts_with(href.as_str(), "http") {
        Some(href.clone())
    } else {
        let b = String::from_str(base);
        Some(b.concat(href.as_str()))
    }
}

/// Adds `u` unless it is already listed.
fn push_new(seen: &mut Vec<String>, u: String, Ghost(all): Ghost<Seq<Seq<char>>>)
    requires
        views(old(seen)@) == dedup(all),
    ensures
        views(final(seen)@) == dedup(all.push(u@)),
{
    proof {
        assert(all.push(u@).drop_last() =~= all);
        lemma_dedup_no_duplicates(all);
    }
    if !contains_text(seen, &u) {
        let ghost before = seen@;
        seen.push(u);
        proof {
            assert(views(seen@) =~= views(before).push(u@));
        }
    }
}

/// The pages that a doc page links to: links that contain `href_contains`
/// and no `#`, absolute or from the site root (joined to `base_url`), each
/// once in order of first appearance.
pub fn follow_links(links: &Vec<String>, base_url: &str, href_contains: &str) -> (r: Vec<String>)
    ensures
        views(r@) == dedup(targets(views(links@), |h: Seq<char>| follow_target(h, base_url@, href_contains@))),
{
    let ghost target = |h: Seq<char>| follow_target(h, base_url@, href_contains@);
    let ghost lv = views(links@);
    let mut out: Vec<String> = Vec::new();
    let mut i: usize = 0;
    proof {
        assert(lv.take(0) =~= Seq::<Seq<char>>::empty());
        assert(views(out@) =~= Seq::<Seq<char>>::empty());
    }
    while i < links.len()
        invariant
            i <= links.len(),
            lv == views(links@),
            target == (|h: Seq<char>| follow_target(h, base_url@, href_contains@)),
            views(out@) == dedup(targets(lv.take(i as int), target)),
        decreases links.len() - i,
    {
        proof {
            assert(lv.take(i + 1).drop_last() =~= lv.take(i as int));
            assert(lv.take(i + 1).last() == links@[i as int]@);
        }
        match follow_target_exec(&links[i], base_url, href_contains) {
            Some(u) => {
                push_new(&mut out, u, Ghost(targets(lv.take(i as int), target)));
            },
            None => {},
        }
        i = i + 1;
    }
    proof {
        assert(lv.take(lv.len() as int) =~= lv);
    }
    out
}

/// The pages that an HTML page links to; see `follow_links`.
pub fn extract_follow_links(html: &str, base_url: &str, href_contains: &str) -> (r: Vec<String>)
    ensures
        views(r@) == dedup(
            targets(
                crate::html::present(crate::html::html_hrefs(html@)),
                |h: Seq<char>| follow_target(h, base_url@, href_contains@),
            ),
        ),
{
    let links = crate::html::page_links(html);
    follow_links(&links, base_url, href_contains)
}

/// The pages that a provider's overview page links to, for spiders that
/// join every relative link to their base.
pub fn site_links(links: &Vec<String>, base: &str, frag: &str, skip_index: bool) -> (r: Vec<String>)
    ensures
        views(r@) == dedup(targets(views(links@), |h: Seq<char>| site_target(h, base@, frag@, skip_index))),
{
    let ghost target = |h: Seq<char>| site_target(h, base@, frag@, skip_index);
    let ghost lv = views(links@);
    let mut out: Vec<String> = Vec::new();
    let mut i: usize = 0;
    proof {
        assert(lv.take(0) =~= Seq::<Seq<char>>::empty());
        assert(views(out@) =~= Seq::<Seq<char>>::empty());
    }
    while i < links.len()
        invariant
            i <= links.len(),
            lv == views(links@),
            target == (|h: Seq<char>| site_target(h, base@, frag@, skip_index)),
            views(out@) == dedup(targets(lv.take(i as int), target)),
        decreases links.len() - i,
    {
        proof {
            assert(lv.take(i + 1).drop_last() =~= lv.take(i as int));
            assert(lv.take(i + 1).last() == links@[i as int]@);
        }
        match site_target_exec(&links[i], base, frag, skip_index) {
            Some(u) => {
                push_new(&mut out, u, Ghost(targets(lv.take(i as int), target)));
            },
            None => {},
        }
        i = i + 1;
    }
    proof {
        assert(lv.take(lv.len() as int) =~= lv);
    }
    out
}


/// Scrapes a single public docs page for model ids.
#[derive(Debug, Clone, Copy)]
pub struct DocPageSpider {
    pub provider: &'static str,
    pub start_url: &'static str,
}

impl DocPageSpider {
    pub fn name(&self) -> (r: &'static str)
        ensures
            r@ == self.provider@,
    {
        self.provider
    }

    pub fn start_urls(&self) -> (r: Vec<String>)
        ensures
            views(r@) == seq![self.start_url@],
    {
        let u: [&str; 1] = [self.start_url];
        let r = owned_list(&u);
        proof {
            assert(u@.map_values(|s: &str| s@) =~= seq![self.start_url@]);
        }
        r
    }

    /// Every model id of the page; no links are followed.
    pub fn scrape(&self, res: &HtmlResponse, page: &PageParts) -> (r: SpiderOutput)
        ensures
            r.follow_urls@.len() == 0,
            bare_models(r.items@, page_ids(*page), self.provider@, res.url@),
    {
        SpiderOutput::new().items(page_models(page, self.provider, res.url))
    }
}

/// Like `DocPageSpider`, but the start page only lists links to per-model
/// detail pages, whose hrefs contain `follow_href_contains`.
#[derive(Debug, Clone, Copy)]
pub struct MultiPageDocSpider {
    pub provider: &'static str,
    pub start_url: &'static str,
    pub base_url: &'static str,
    pub follow_href_contains: &'static str,
}

impl MultiPageDocSpider {
    pub fn name(&self) -> (r: &'static str)
        ensures
            r@ == self.provider@,
    {
        self.provider
    }

    pub fn start_urls(&self) -> (r: Vec<String>)
        ensures
            views(r@) == seq![self.start_url@],
    {
        let u: [&str; 1] = [self.start_url];
        let r = owned_list(&u);
        proof {
            assert(u@.map_values(|s: &str| s@) =~= seq![self.start_url@]);
        }
        r
    }

    /// On a detail page (any page but the start page) the model ids; on the
    /// start page the links to follow.
    pub fn scrape(&self, res: &HtmlResponse, page: &PageParts) -> (r: SpiderOutput)
        ensures
            res.url@ != self.start_url@ ==> r.follow_urls@.len() == 0 && bare_models(
                r.items@,
                page_ids(*page),
                self.provider@,
                res.url@,
            ),
            res.url@ == self.start_url@ ==> r.items@.len() == 0 && views(r.follow_urls@) == dedup(
                targets(
                    views(page.links@),
                    |h: Seq<char>| follow_target(h, self.base_url@, self.follow_href_contains@),
                ),
            ),
    {
        if res.url.to_owned() != self.start_url.to_owned() {
            SpiderOutput::new().items(page_models(page, self.provider, res.url))
        } else {
            SpiderOutput {
                items: Vec::new(),
                follow_urls: follow_links(&page.links, self.base_url, self.follow_href_contains),
            }
        }
    }
}

/// The Meta (Llama) spider.
#[derive(Debug, Clone, Copy)]
pub struct MetaSpider;

impl MetaSpider {
    pub fn name(&self) -> (r: &'static str)
        ensures
            r@ == "meta"@,
    {
        "meta"
    }

    pub fn start_urls(&self) -> (r: Vec<String>)
        ensures
            views(r@) == seq!["https://www.llama.com/docs/model-cards-and-prompt-formats/llama3_1/"@],
    {
        let u: [&str; 1] = ["https://www.llama.com/docs/model-cards-and-prompt-formats/llama3_1/"];
        let r = owned_list(&u);
        proof {
            assert(u@.map_values(|s: &str| s@) =~= seq!["https://www.llama.com/docs/model-cards-and-prompt-formats/llama3_1/"@]);
        }
        r
    }

    /// Which ids found on its pages the spider keeps.
    pub open spec fn keeps(&self, id: Seq<char>) -> bool {
        starts_with_any(seq!["llama-"@, "llama3"@, "llama4"@, "codellama-"@, "meta-llama-"@], id)
    }

    /// A page without model ids yields its model-card links to follow; a
    /// page with ids yields the Llama ids among them and no links.
    pub fn scrape(&self, res: &HtmlResponse, page: &PageParts) -> (r: SpiderOutput)
        ensures
            page_ids(*page).len() == 0 ==> r.items@.len() == 0 && views(r.follow_urls@) == dedup(
                targets(
                    views(page.links@),
                    |h: Seq<char>| follow_target(h, "https://www.llama.com"@, "/docs/model-cards"@),
                ),
            ),
            page_ids(*page).len() > 0 ==> r.follow_urls@.len() == 0 && bare_models(
                r.items@,
                page_ids(*page).filter(|i: Seq<char>| self.keeps(i)),
                "meta"@,
                res.url@,
            ),
    {
        let models = page_models(page, "meta", res.url);
        let follow = follow_links(&page.links, "https://www.llama.com", "/docs/model-cards");
        if models.len() == 0 {
            return SpiderOutput { items: Vec::new(), follow_urls: follow };
        }
        let ps: [&str; 5] = ["llama-", "llama3", "llama4", "codellama-", "meta-llama-"];
        let rule = prefix_rule(&ps);
        proof {
            assert(ps@.map_values(|s: &str| s@) =~= seq!["llama-"@, "llama3"@, "llama4"@, "codellama-"@, "meta-llama-"@]);
        }
        let items = keep_page_models(page, "meta", res.url, &rule);
        proof {
            assert((|i: Seq<char>| rule_keeps(rule, i)) =~= (|i: Seq<char>| self.keeps(i)));
        }
        SpiderOutput::new().items(items)
    }
}

/// The Mistral spider that follows model-card links from the overview page.
#[derive(Debug, Clone, Copy)]
pub struct MistralHtmlSpider;

impl MistralHtmlSpider {
    pub fn name(&self) -> (r: &'static str)
        ensures
            r@ == "mistral-html"@,
    {
        "mistral-html"
    }

    pub fn start_urls(&self) -> (r: Vec<String>)
        ensures
            views(r@) == seq!["https://docs.mistral.ai/getting-started/models/models_overview/"@],
    {
        let u: [&str; 1] = ["https://docs.mistral.ai/getting-started/models/models_overview/"];
        let r = owned_list(&u);
        proof {
            assert(u@.map_values(|s: &str| s@) =~= seq!["https://docs.mistral.ai/getting-started/models/models_overview/"@]);
        }
        r
    }

    /// On a model card the model ids; elsewhere the model-card links.
    pub fn scrape(&self, res: &HtmlResponse, page: &PageParts) -> (r: SpiderOutput)
        ensures
            has_substring(res.url@, "/model-cards/"@) ==> r.follow_urls@.len() == 0 && bare_models(
                r.items@,
                page_ids(*page),
                "mistral"@,
                res.url@,
            ),
            !has_substring(res.url@, "/model-cards/"@) ==> r.items@.len() == 0 && views(r.follow_urls@) == dedup(
                targets(
                    views(page.links@),
                    |h: Seq<char>| follow_target(h, "https://docs.mistral.ai"@, "/model-cards/"@),
                ),
            ),
    {
        if contains_str(res.url, "/model-cards/") {
            SpiderOutput::new().items(page_models(page, "mistral", res.url))
        } else {
            SpiderOutput {
                items: Vec::new(),
                follow_urls: follow_links(&page.links, "https://docs.mistral.ai", "/model-cards/"),
            }
        }
    }
}

} // verus!
