//! Which providers a scraper run covers.
use vstd::prelude::*;
use crate::text::views;

verus! {

/// The providers that have a spider of their own.
pub open spec fn custom_providers() -> Seq<Seq<char>> {
    seq![
        "anthropic"@,
        "google"@,
        "mistral"@,
        "openai"@,
        "cohere"@,
        "deepseek"@,
        "xai"@,
        "alibaba"@,
        "moonshot"@,
        "meta"@,
        "perplexity"@,
        "elevenlabs"@,
        "luma"@,
        "leonardo"@,
        "voyageai"@,
        "zai"@,
        "microsoft"@,
        "inception"@,
        "xiaomi"@,
        "bytedance"@,
    ]
}

/// The providers read from a single documentation page, with that page.
pub open spec fn simple_providers() -> Seq<(Seq<char>, Seq<char>)> {
    seq![
        ("adobe"@, "https://developer.adobe.com/firefly-api/docs/guides/models/"@),
        ("ai21"@, "https://docs.ai21.com/docs/overview"@),
        ("amazon"@, "https://docs.aws.amazon.com/bedrock/latest/userguide/models-supported.html"@),
        ("assemblyai"@, "https://www.assemblyai.com/docs/models"@),
        ("baidu"@, "https://qianfan.cloud.baidu.com/doc/WENXINWORKSHOP/s/Nlks5zkzu"@),
        ("bfl"@, "https://docs.bfl.ml/"@),
        ("cartesia"@, "https://docs.cartesia.ai/build-with-cartesia/tts-models/api-changes"@),
        ("deepgram"@, "https://developers.deepgram.com/docs/models-languages-overview"@),
        ("heygen"@, "https://docs.heygen.com/reference/list-voices-v2"@),
        ("hidream"@, "https://www.hidream.ai/"@),
        ("ibm"@, "https://www.ibm.com/docs/en/watsonx/saas?topic=solutions-supported-foundation-models"@),
        ("ideogram"@, "https://developer.ideogram.ai/api-reference/api-reference/generate"@),
        ("inflection"@, "https://developers.inflection.ai/docs/introduction"@),
        ("inworld"@, "https://docs.inworld.ai/docs/tutorial-text/v2/"@),
        ("jina"@, "https://jina.ai/models/"@),
        ("kling"@, "https://klingai.com/"@),
        ("lightricks"@, "https://docs.ltx.video/"@),
        ("lmnt"@, "https://docs.lmnt.com/"@),
        ("meshy"@, "https://docs.meshy.ai/"@),
        ("minimax"@, "https://platform.minimaxi.com/document/model-introduction"@),
        ("naver"@, "https://clovastudio.stream.naver.com/docs"@),
        ("nomic"@, "https://docs.nomic.ai/reference/endpoints/nomic-embed-text"@),
        ("nvidia"@, "https://docs.nvidia.com/nim/large-language-models/latest/supported-models.html"@),
        ("pika"@, "https://pika.art/"@),
        ("pixverse"@, "https://docs.pixverse.ai/"@),
        ("playht"@, "https://docs.play.ai/documentation/rest-api"@),
        ("recraft"@, "https://www.recraft.ai/docs"@),
        ("reka"@, "https://docs.reka.ai/"@),
        ("reve"@, "https://reveai.com/"@),
        ("runway"@, "https://docs.runwayml.com/"@),
        ("stabilityai"@, "https://platform.stability.ai/docs/api-reference"@),
        ("stepfun"@, "https://platform.stepfun.com/docs/overview/concept"@),
        ("suno"@, "https://suno.com/"@),
        ("tencent"@, "https://cloud.tencent.com/document/product/1729/104753"@),
        ("tripo"@, "https://platform.tripo3d.ai/docs"@),
        ("udio"@, "https://www.udio.com/"@),
        ("upstage"@, "https://developers.upstage.ai/docs/apis/model-overview"@),
        ("vidu"@, "https://platform.vidu.studio/docs"@),
        ("writer"@, "https://dev.writer.com/api-guides/models"@),
        ("yi"@, "https://platform.lingyiwanwu.com/docs"@),
    ]
}

/// The names of the providers with a spider of their own, in order.
pub fn custom_provider_names() -> (r: Vec<String>)
    ensures
        views(r@) == custom_providers(),
{
    let names: [&str; 20] = [
        "anthropic",
        "google",
        "mistral",
        "openai",
        "cohere",
        "deepseek",
        "xai",
        "alibaba",
        "moonshot",
        "meta",
        "perplexity",
        "elevenlabs",
        "luma",
        "leonardo",
        "voyageai",
        "zai",
        "microsoft",
        "inception",
        "xiaomi",
        "bytedance",
    ];
    let r = crate::spiders::owned_list(&names);
    proof {
        assert(names@.map_values(|s: &str| s@) =~= custom_providers());
    }
    r
}

pub open spec fn pair_views(v: Seq<(String, String)>) -> Seq<(Seq<char>, Seq<char>)> {
    v.map_values(|p: (String, String)| (p.0@, p.1@))
}

/// The single-page providers and their pages, in order.
pub fn simple_provider_pages() -> (r: Vec<(String, String)>)
    ensures
        pair_views(r@) == simple_providers(),
{
    let pages: [(&str, &str); 40] = [
        ("adobe", "https://developer.adobe.com/firefly-api/docs/guides/models/"),
        ("ai21", "https://docs.ai21.com/docs/overview"),
        ("amazon", "https://docs.aws.amazon.com/bedrock/latest/userguide/models-supported.html"),
        ("assemblyai", "https://www.assemblyai.com/docs/models"),
        ("baidu", "https://qianfan.cloud.baidu.com/doc/WENXINWORKSHOP/s/Nlks5zkzu"),
        ("bfl", "https://docs.bfl.ml/"),
        ("cartesia", "https://docs.cartesia.ai/build-with-cartesia/tts-models/api-changes"),
        ("deepgram", "https://developers.deepgram.com/docs/models-languages-overview"),
        ("heygen", "https://docs.heygen.com/reference/list-voices-v2"),
        ("hidream", "https://www.hidream.ai/"),
        ("ibm", "https://www.ibm.com/docs/en/watsonx/saas?topic=solutions-supported-foundation-models"),
        ("ideogram", "https://developer.ideogram.ai/api-reference/api-reference/generate"),
        ("inflection", "https://developers.inflection.ai/docs/introduction"),
        ("inworld", "https://docs.inworld.ai/docs/tutorial-text/v2/"),
        ("jina", "https://jina.ai/models/"),
        ("kling", "https://klingai.com/"),
        ("lightricks", "https://docs.ltx.video/"),
        ("lmnt", "https://docs.lmnt.com/"),
        ("meshy", "https://docs.meshy.ai/"),
        ("minimax", "https://platform.minimaxi.com/document/model-introduction"),
        ("naver", "https://clovastudio.stream.naver.com/docs"),
        ("nomic", "https://docs.nomic.ai/reference/endpoints/nomic-embed-text"),
        ("nvidia", "https://docs.nvidia.com/nim/large-language-models/latest/supported-models.html"),
        ("pika", "https://pika.art/"),
        ("pixverse", "https://docs.pixverse.ai/"),
        ("playht", "https://docs.play.ai/documentation/rest-api"),
        ("recraft", "https://www.recraft.ai/docs"),
        ("reka", "https://docs.reka.ai/"),
        ("reve", "https://reveai.com/"),
        ("runway", "https://docs.runwayml.com/"),
        ("stabilityai", "https://platform.stability.ai/docs/api-reference"),
        ("stepfun", "https://platform.stepfun.com/docs/overview/concept"),
        ("suno", "https://suno.com/"),
        ("tencent", "https://cloud.tencent.com/document/product/1729/104753"),
        ("tripo", "https://platform.tripo3d.ai/docs"),
        ("udio", "https://www.udio.com/"),
        ("upstage", "https://developers.upstage.ai/docs/apis/model-overview"),
        ("vidu", "https://platform.vidu.studio/docs"),
        ("writer", "https://dev.writer.com/api-guides/models"),
        ("yi", "https://platform.lingyiwanwu.com/docs"),
    ];
    let ghost want = pages@.map_values(|p: (&str, &str)| (p.0@, p.1@));
    proof {
        assert(want =~= simple_providers());
    }
    let mut r: Vec<(String, String)> = Vec::new();
    let mut i: usize = 0;
    while i < 40
        invariant
            i <= 40,
            pages@.len() == 40,
            want == pages@.map_values(|p: (&str, &str)| (p.0@, p.1@)),
            pair_views(r@) == want.take(i as int),
        decreases 40 - i,
    {
        let (n, u) = pages[i];
        let ghost before = r@;
        r.push((n.to_owned(), u.to_owned()));
        proof {
            assert(pair_views(r@) =~= pair_views(before).push((n@, u@)));
            assert(want.take(i + 1) =~= want.take(i as int).push(want[i as int]));
        }
        i = i + 1;
    }
    proof {
        assert(want.take(40) =~= want);
    }
    r
}


/// A run for `selection` covers the provider `name`: `all` covers every
/// provider, any other selection the one it names.
pub open spec fn covers(selection: Seq<char>, name: Seq<char>) -> bool {
    selection == "all"@ || selection == name
}

pub fn should_run(selection: &str, name: &str) -> (r: bool)
    ensures
        r == covers(selection@, name@),
{
    let s = selection.to_owned();
    let all = "all".to_owned();
    let n = name.to_owned();
    s == all || s == n
}

/// A provider that some spider covers.
pub open spec fn known_provider(p: Seq<char>) -> bool {
    custom_providers().contains(p) || exists|i: int|
        0 <= i < simple_providers().len() && (#[trigger] simple_providers()[i]).0 == p
}

/// The run should report its selection as unknown: it named a single
/// provider, scraped nothing, and no spider covers that name.
pub fn unknown_selection(selection: &str, scraped: usize) -> (r: bool)
    ensures
        r == (selection@ != "all"@ && scraped == 0 && !known_provider(selection@)),
{
    let s = selection.to_owned();
    let all = "all".to_owned();
    if s == all || scraped != 0 {
        return false;
    }
    let custom = custom_provider_names();
    if crate::scope::contains_text(&custom, &s) {
        return false;
    }
    let pages = simple_provider_pages();
    let mut i: usize = 0;
    while i < pages.len()
        invariant
            i <= pages.len(),
            pair_views(pages@) == simple_providers(),
            s@ == selection@,
            forall|k: int| 0 <= k < i ==> (#[trigger] simple_providers()[k]).0 != s@,
        decreases pages.len() - i,
    {
        proof {
            assert(pair_views(pages@)[i as int] == (pages@[i as int].0@, pages@[i as int].1@));
        }
        if pages[i].0 == s {
            proof {
                assert((simple_providers()[i as int]).0 == s@);
            }
            return false;
        }
        i = i + 1;
    }
    true
}

} // verus!
