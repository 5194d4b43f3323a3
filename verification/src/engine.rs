//! The crawl frontier of a spider run: which URL to fetch next, and what a
//! fetched page adds. The fetching itself is left to the caller, which hands
//! each page's output back.
use vstd::prelude::*;
use crate::scraped::ScrapedModel;
use crate::scope::contains_text;
use crate::spiders::SpiderOutput;
use crate::text::views;

verus! {

/// The position of the first URL in `q`, from `i` on, that is not among the
/// visited ones.
pub open spec fn first_unvisited(q: Seq<Seq<char>>, v: Seq<Seq<char>>, i: int) -> Option<int>
    decreases q.len() - i,
{
    if i < 0 || i >= q.len() {
        None
    } else if !v.contains(q[i]) {
        Some(i)
    } else {
        first_unvisited(q, v, i + 1)
    }
}

/// The URLs of `us` that are not among the visited ones, in order.
pub open spec fn unvisited(us: Seq<Seq<char>>, v: Seq<Seq<char>>) -> Seq<Seq<char>>
    decreases us.len(),
{
    if us.len() == 0 {
        us
    } else {
        let p = unvisited(us.drop_last(), v);
        if v.contains(us.last()) {
            p
        } else {
            p.push(us.last())
        }
    }
}

/// The state of one spider run.
#[derive(Debug)]
pub struct Frontier {
    /// Every URL ever queued; those before `head` have been taken.
    pub queue: Vec<String>,
    pub head: usize,
    /// The URLs fetched so far, in order.
    pub visited: Vec<String>,
    /// The models scraped so far, in order.
    pub results: Vec<ScrapedModel>,
}

impl Frontier {
    /// The URLs still queued, in order.
    pub open spec fn pending(&self) -> Seq<Seq<char>> {
        views(self.queue@).skip(self.head as int)
    }

    pub open spec fn fetched(&self) -> Seq<Seq<char>> {
        views(self.visited@)
    }

    /// The head lies within the queue, and no URL was fetched twice.
    pub open spec fn well_formed(&self) -> bool {
        &&& self.head <= self.queue.len()
        &&& self.fetched().no_duplicates()
    }

    /// A run that starts from the spider's start URLs.
    pub fn new(start_urls: Vec<String>) -> (r: Self)
        ensures
            r.well_formed(),
            r.pending() == views(start_urls@),
            r.fetched().len() == 0,
            r.results@.len() == 0,
    {
        let r = Frontier { queue: start_urls, head: 0, visited: Vec::new(), results: Vec::new() };
        proof {
            assert(r.pending() =~= views(start_urls@));
            assert(r.fetched() =~= Seq::<Seq<char>>::empty());
        }
        r
    }

    /// The next URL to fetch: the first queued one not fetched yet, which is
    /// taken off the queue together with the fetched ones before it and
    /// counted as fetched. `None` when no such URL is queued.
    pub fn next_url(&mut self) -> (r: Option<String>)
        requires
            old(self).well_formed(),
        ensures
            final(self).well_formed(),
            final(self).results@ == old(self).results@,
            match first_unvisited(old(self).pending(), old(self).fetched(), 0) {
                Some(k) => r matches Some(u) && u@ == old(self).pending()[k]
                    && final(self).pending() == old(self).pending().skip(k + 1)
                    && final(self).fetched() == old(self).fetched().push(u@),
                None => r is None && final(self).pending().len() == 0
                    && final(self).fetched() == old(self).fetched(),
            },
    {
        let ghost p0 = self.pending();
        let ghost f0 = self.fetched();
        let ghost h0 = self.head as int;
        while self.head < self.queue.len()
            invariant
                0 <= h0 <= self.head <= self.queue.len(),
                p0 == old(self).pending(),
                f0 == old(self).fetched(),
                self.fetched() == f0,
                f0.no_duplicates(),
                p0 == views(self.queue@).skip(h0),
                self.results@ == old(self).results@,
                self.queue@ == old(self).queue@,
                self.visited@ == old(self).visited@,
                first_unvisited(p0, f0, 0) == first_unvisited(p0, f0, self.head - h0),
            decreases self.queue.len() - self.head,
        {
            let i = self.head;
            self.head = self.head + 1;
            proof {
                assert(views(self.queue@)[i as int] == self.queue@[i as int]@);
                assert(views(self.queue@).skip(h0)[i - h0] == views(self.queue@)[i as int]);
                assert(p0[i - h0] == self.queue@[i as int]@);
            }
            if !contains_text(&self.visited, &self.queue[i]) {
                let u = self.queue[i].clone();
                let ghost before = self.visited@;
                self.visited.push(u);
                proof {
                    assert(views(self.visited@) =~= views(before).push(u@));
                    assert forall|a: int, b: int|
                        0 <= a < b < self.fetched().len() implies self.fetched()[a] != self.fetched()[b] by {
                        if b == f0.len() {
                            assert(f0[a] == self.fetched()[a]);
                            assert(f0.contains(f0[a]));
                        }
                    }
                    assert(views(self.queue@).skip(self.head as int) =~= p0.skip(i - h0 + 1));
                    assert(!f0.contains(p0[i - h0]));
                    assert(first_unvisited(p0, f0, i - h0) == Some(i - h0));
                }
                let u2 = self.queue[i].clone();
                return Some(u2);
            }
        }
        proof {
            assert(views(self.queue@).skip(self.head as int) =~= Seq::<Seq<char>>::empty());
        }
        None
    }

    /// Takes in what a fetched page yielded: its models join the results,
    /// and the URLs it points to that were not fetched yet join the queue.
    pub fn record(&mut self, output: SpiderOutput)
        requires
            old(self).well_formed(),
        ensures
            final(self).well_formed(),
            final(self).results@ == old(self).results@ + output.items@,
            final(self).fetched() == old(self).fetched(),
            final(self).pending() == old(self).pending() + unvisited(
                views(output.follow_urls@),
                old(self).fetched(),
            ),
    {
        let SpiderOutput { items, follow_urls } = output;
        let mut items = items;
        self.results.append(&mut items);
        let ghost p0 = self.pending();
        let ghost fs = views(follow_urls@);
        let mut i: usize = 0;
        proof {
            assert(fs.take(0) =~= Seq::<Seq<char>>::empty());
            assert(self.pending() =~= p0 + unvisited(fs.take(0), self.fetched()));
        }
        while i < follow_urls.len()
            invariant
                i <= follow_urls.len(),
                fs == views(follow_urls@),
                self.head <= self.queue.len(),
                self.fetched() == old(self).fetched(),
                self.fetched().no_duplicates(),
                self.results@ == old(self).results@ + output.items@,
                self.pending() == p0 + unvisited(fs.take(i as int), self.fetched()),
                self.head == old(self).head,
            decreases follow_urls.len() - i,
        {
            proof {
                assert(fs.take(i + 1).drop_last() =~= fs.take(i as int));
                assert(fs.take(i + 1).last() == follow_urls@[i as int]@);
            }
            if !contains_text(&self.visited, &follow_urls[i]) {
                let ghost before = self.queue@;
                self.queue.push(follow_urls[i].clone());
                proof {
                    assert(views(self.queue@) =~= views(before).push(follow_urls@[i as int]@));
                    assert(self.pending() =~= views(before).skip(self.head as int).push(
                        follow_urls@[i as int]@,
                    ));
                }
            }
            i = i + 1;
        }
        proof {
            assert(fs.take(follow_urls.len() as int) =~= fs);
        }
    }

    /// The models scraped in the run, in order.
    pub fn into_results(self) -> (r: Vec<ScrapedModel>)
        ensures
            r@ == self.results@,
    {
        self.results
    }
}

/// A URL that was fetched is never handed out again: whatever is queued,
/// the next URL of a run that already fetched `u` is another one.
pub proof fn lemma_fetched_once(q: Seq<Seq<char>>, v: Seq<Seq<char>>, u: Seq<char>, i: int)
    requires
        v.contains(u),
    ensures
        first_unvisited(q, v, i) matches Some(k) ==> q[k] != u && !v.contains(q[k]),
    decreases q.len() - i,
{
    if 0 <= i < q.len() && v.contains(q[i]) {
        lemma_fetched_once(q, v, u, i + 1);
    }
}

} // verus!
