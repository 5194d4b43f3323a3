//! The DeepSeek spider, which reads the provider's model-list API.
use vstd::prelude::*;
use crate::scraped::ScrapedModel;
use crate::spiders::{SpiderOutput, bare_models, owned_list};
use crate::model_ids::bare_model;
use crate::text::views;

verus! {

/// The DeepSeek spider; the API wants a key.
#[derive(Debug, Clone)]
pub struct DeepSeekSpider {
    pub api_key: String,
}

impl DeepSeekSpider {
    pub fn new(api_key: String) -> (r: Self)
        ensures
            r.api_key == api_key,
    {
        DeepSeekSpider { api_key }
    }

    pub fn name(&self) -> (r: &'static str)
        ensures
            r@ == "deepseek"@,
    {
        "deepseek"
    }

    /// The model-list endpoint.
    pub fn start_urls(&self) -> (r: Vec<String>)
        ensures
            views(r@) == seq!["https://api.deepseek.com/v1/models"@],
    {
        let u: [&str; 1] = ["https://api.deepseek.com/v1/models"];
        let r = owned_list(&u);
        proof {
            assert(u@.map_values(|s: &str| s@) =~= seq!["https://api.deepseek.com/v1/models"@]);
        }
        r
    }

    /// The request headers: the key as a bearer token.
    pub fn headers(&self) -> (r: Vec<(String, String)>)
        ensures
            r.len() == 1,
            r@[0].0@ == "Authorization"@,
            r@[0].1@ == "Bearer "@ + self.api_key@,
    {
        let mut v = "Bearer ".to_owned();
        v.append(self.api_key.as_str());
        let mut r: Vec<(String, String)> = Vec::new();
        r.push(("Authorization".to_owned(), v));
        r
    }

    /// One model per id that the model list holds, in order, with the
    /// endpoint as its source.
    pub fn scrape(&self, ids: &Vec<String>) -> (r: SpiderOutput)
        ensures
            r.follow_urls@.len() == 0,
            bare_models(r.items@, views(ids@), "deepseek"@, "https://api.deepseek.com/v1/models"@),
    {
        let mut items: Vec<ScrapedModel> = Vec::new();
        let mut i: usize = 0;
        while i < ids.len()
            invariant
                i <= ids.len(),
                items.len() == i,
                forall|k: int|
                    0 <= k < i ==> bare_model(
                        #[trigger] items@[k],
                        ids@[k]@,
                        "deepseek"@,
                        "https://api.deepseek.com/v1/models"@,
                    ),
            decreases ids.len() - i,
        {
            items.push(
                ScrapedModel {
                    id: ids[i].clone(),
                    provider: "deepseek".to_owned(),
                    display_name: None,
                    context_window: None,
                    max_output_tokens: None,
                    input_price: None,
                    input_price_candidates: Vec::new(),
                    output_price: None,
                    source_url: "https://api.deepseek.com/v1/models".to_owned(),
                },
            );
            i = i + 1;
        }
        proof {
            assert forall|k: int| 0 <= k < items.len() implies bare_model(
                #[trigger] items@[k],
                views(ids@)[k],
                "deepseek"@,
                "https://api.deepseek.com/v1/models"@,
            ) by {
                assert(views(ids@)[k] == ids@[k]@);
            }
        }
        SpiderOutput::new().items(items)
    }
}

} // verus!
