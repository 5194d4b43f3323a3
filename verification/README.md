# almanac

A model catalog service and the scraper that keeps the catalog in step with
provider documentation, with its logic verified by Verus.

- `src/` is the verified library: the catalog and its queries (listing,
  search, suggestions, comparison, validation, health and statistics), catalog
  scoping, the response cache and the rate limiter, the request-level
  decisions of the HTTP layer, and the scraper's side: the spiders, the price
  and model-id readers, the crawl frontier, the catalog diff and the stub
  writer. Prices are integers in billionths of a currency unit.
- `app/` is the program around it: `almanac serve` runs the HTTP API with
  axum, `almanac scrape` fetches provider pages and reports how they differ
  from the catalog. It reads files, the environment and the network, and
  turns values into JSON; the decisions are the library's.
- `tests/` exercises the library on concrete values.
