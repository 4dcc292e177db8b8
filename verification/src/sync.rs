//! The aggregation engine: gathers what the configured searches return,
//! keeps one pull request for each url, and attributes it to the search that
//! ranks first among those that returned it.

use vstd::prelude::*;
use crate::config::{Config, Query};
use crate::error::Error;
use crate::gh::{url_occurs, urls_distinct, Meta, PullRequest};
use crate::util::{lemma_rank_of, rank_in, rank_of, views};

verus! {

/// The rank of the search that `pr` is labelled with; an unlisted label
/// ranks behind every listed one.
pub open spec fn priority(order: Seq<Seq<char>>, pr: PullRequest) -> int {
    rank_of(order, pr.meta.label@)
}

/// Whether the item at `k` wins among `bucket`: none ranks lower, and every
/// item before it ranks strictly higher.
pub open spec fn wins(bucket: Seq<PullRequest>, order: Seq<Seq<char>>, k: int) -> bool {
    &&& 0 <= k < bucket.len()
    &&& forall|j: int|
        0 <= j < bucket.len() ==> priority(order, bucket[k]) <= priority(
            order,
            #[trigger] bucket[j],
        )
    &&& forall|j: int|
        0 <= j < k ==> priority(order, bucket[k]) < priority(order, #[trigger] bucket[j])
}

/// The position of the winner of `bucket`.
pub open spec fn winner_index(bucket: Seq<PullRequest>, order: Seq<Seq<char>>) -> int {
    choose|k: int| wins(bucket, order, k)
}

/// At most one position wins.
pub proof fn lemma_wins_unique(bucket: Seq<PullRequest>, order: Seq<Seq<char>>, a: int, b: int)
    requires
        wins(bucket, order, a),
        wins(bucket, order, b),
    ensures
        a == b,
{
    if a < b {
        assert(priority(order, bucket[b]) < priority(order, bucket[a]));
        assert(priority(order, bucket[a]) <= priority(order, bucket[b]));
    }
    if b < a {
        assert(priority(order, bucket[a]) < priority(order, bucket[b]));
        assert(priority(order, bucket[b]) <= priority(order, bucket[a]));
    }
}

/// A position that wins is the winner.
pub proof fn lemma_winner_is(bucket: Seq<PullRequest>, order: Seq<Seq<char>>, k: int)
    requires
        wins(bucket, order, k),
    ensures
        winner_index(bucket, order) == k,
{
    lemma_wins_unique(bucket, order, winner_index(bucket, order), k);
}

/// Picks from pull requests that share a url the one whose label ranks first
/// in `attribution_order`; among several of that rank, the earliest.
pub fn select_pr_with_attribution_priority(
    prs: &[PullRequest],
    attribution_order: &Vec<String>,
) -> (selected: PullRequest)
    requires
        prs@.len() > 0,
    ensures
        wins(prs@, views(attribution_order@), winner_index(prs@, views(attribution_order@))),
        selected == prs@[winner_index(prs@, views(attribution_order@))],
{
    let ghost order = views(attribution_order@);
    let n = prs.len();
    let mut best: usize = 0;
    let mut best_rank = rank_in(attribution_order, &prs[0].meta.label);
    let mut i: usize = 1;
    while i < n
        invariant
            1 <= i <= n,
            n == prs@.len(),
            order == views(attribution_order@),
            best < i,
            best_rank == priority(order, prs@[best as int]),
            wins(prs@.take(i as int), order, best as int),
        decreases n - i,
    {
        let rank = rank_in(attribution_order, &prs[i].meta.label);
        let ghost before = prs@.take(i as int);
        let ghost now = prs@.take(i + 1);
        assert(forall|j: int| 0 <= j < i ==> before[j] == now[j]);
        if rank < best_rank {
            proof {
                assert forall|j: int| 0 <= j < now.len() implies priority(order, now[i as int])
                    <= priority(order, #[trigger] now[j]) by {
                    if j < i {
                        assert(priority(order, before[best as int]) <= priority(order, before[j]));
                    }
                }
                assert forall|j: int| 0 <= j < i implies priority(order, now[i as int])
                    < priority(order, #[trigger] now[j]) by {
                    assert(priority(order, before[best as int]) <= priority(order, before[j]));
                }
            }
            best = i;
            best_rank = rank;
        } else {
            proof {
                assert forall|j: int| 0 <= j < now.len() implies priority(order, now[best as int])
                    <= priority(order, #[trigger] now[j]) by {
                    if j < i {
                        assert(priority(order, before[best as int]) <= priority(order, before[j]));
                    }
                }
                assert forall|j: int| 0 <= j < best implies priority(order, now[best as int])
                    < priority(order, #[trigger] now[j]) by {
                    assert(priority(order, before[best as int]) < priority(order, before[j]));
                }
            }
        }
        i += 1;
    }
    proof {
        assert(prs@.take(n as int) =~= prs@);
        lemma_winner_is(prs@, order, best as int);
    }
    prs[best].clone()
}

/// The condition of having the url `url`.
pub open spec fn has_url(url: Seq<char>) -> spec_fn(PullRequest) -> bool {
    |pr: PullRequest| pr.url@ == url
}

/// The urls of `prs`, each once, in the order in which they first occur.
pub open spec fn distinct_urls(prs: Seq<PullRequest>) -> Seq<Seq<char>>
    decreases prs.len(),
{
    if prs.len() == 0 {
        Seq::empty()
    } else {
        let before = distinct_urls(prs.drop_last());
        if before.contains(prs.last().url@) {
            before
        } else {
            before.push(prs.last().url@)
        }
    }
}

/// `distinct_urls` holds the url of every item, none twice, and no other.
pub proof fn lemma_distinct_urls(prs: Seq<PullRequest>)
    ensures
        forall|k: int| 0 <= k < prs.len() ==> distinct_urls(prs).contains(#[trigger] prs[k].url@),
        forall|i: int, j: int|
            0 <= i < j < distinct_urls(prs).len() ==> distinct_urls(prs)[i] != distinct_urls(
                prs,
            )[j],
        forall|i: int|
            0 <= i < distinct_urls(prs).len() ==> url_occurs(prs, #[trigger] distinct_urls(prs)[i]),
    decreases prs.len(),
{
    if prs.len() > 0 {
        let rest = prs.drop_last();
        let before = distinct_urls(rest);
        let now = distinct_urls(prs);
        lemma_distinct_urls(rest);
        assert forall|k: int| 0 <= k < prs.len() implies now.contains(#[trigger] prs[k].url@) by {
            if k < rest.len() {
                assert(rest[k] == prs[k]);
                let i = choose|i: int| 0 <= i < before.len() && before[i] == rest[k].url@;
                assert(now[i] == before[i]);
            } else if before.contains(prs.last().url@) {
            } else {
                assert(now[before.len() as int] == prs.last().url@);
            }
        }
        assert forall|i: int| 0 <= i < now.len() implies url_occurs(prs, #[trigger] now[i]) by {
            if i < before.len() {
                assert(url_occurs(rest, before[i]));
                let k = choose|k: int| 0 <= k < rest.len() && #[trigger] rest[k].url@ == before[i];
                assert(prs[k] == rest[k]);
            } else {
                assert(prs[prs.len() - 1].url@ == now[i]);
            }
        }
    }
}

/// The items of `prs` gathered by url: one bucket for each distinct url, in
/// the order in which the urls first occur, each bucket holding the items
/// with its url in the order in which they came.
pub fn group_by_url(prs: &Vec<PullRequest>) -> (buckets: Vec<Vec<PullRequest>>)
    ensures
        buckets@.len() == distinct_urls(prs@).len(),
        forall|b: int|
            0 <= b < buckets@.len() ==> (#[trigger] buckets@[b])@ == prs@.filter(
                has_url(distinct_urls(prs@)[b]),
            ),
        forall|b: int| 0 <= b < buckets@.len() ==> (#[trigger] buckets@[b])@.len() > 0,
{
    let mut buckets: Vec<Vec<PullRequest>> = Vec::new();
    let n = prs.len();
    let mut i: usize = 0;
    while i < n
        invariant
            i <= n,
            n == prs@.len(),
            buckets@.len() == distinct_urls(prs@.take(i as int)).len(),
            forall|b: int|
                0 <= b < buckets@.len() ==> (#[trigger] buckets@[b])@ == prs@.take(i as int).filter(
                    has_url(distinct_urls(prs@.take(i as int))[b]),
                ),
            forall|b: int|
                0 <= b < buckets@.len() ==> (#[trigger] buckets@[b])@.len() > 0
                    && buckets@[b]@[0].url@ == distinct_urls(prs@.take(i as int))[b],
        decreases n - i,
    {
        let ghost before = prs@.take(i as int);
        let ghost now = prs@.take(i + 1);
        let ghost urls = distinct_urls(before);
        proof {
            assert(now.drop_last() =~= before);
            assert(now.last() == prs@[i as int]);
            reveal(Seq::filter);
            lemma_distinct_urls(before);
        }
        let m = buckets.len();
        let mut b: usize = 0;
        let mut found = false;
        while b < m
            invariant_except_break
                !found,
            invariant
                b <= m,
                m == buckets@.len(),
                m == urls.len(),
                i < n,
                n == prs@.len(),
                forall|c: int|
                    0 <= c < m ==> (#[trigger] buckets@[c])@.len() > 0 && buckets@[c]@[0].url@
                        == urls[c],
                forall|c: int| 0 <= c < b ==> urls[c] != prs@[i as int].url@,
            ensures
                found ==> b < m && urls[b as int] == prs@[i as int].url@,
                !found ==> b == m && !urls.contains(prs@[i as int].url@),
            decreases m - b,
        {
            if buckets[b][0].url == prs[i].url {
                found = true;
                break;
            }
            b += 1;
        }
        if found {
            let ghost old_buckets = buckets@;
            buckets[b].push(prs[i].clone());
            proof {
                assert(distinct_urls(now) == urls);
                assert forall|c: int| 0 <= c < buckets@.len() implies (#[trigger] buckets@[c])@
                    == now.filter(has_url(distinct_urls(now)[c])) by {
                    if c == b {
                    } else {
                        assert(buckets@[c] == old_buckets[c]);
                        assert(urls[c] != urls[b as int]);
                    }
                }
            }
        } else {
            let mut bucket: Vec<PullRequest> = Vec::new();
            bucket.push(prs[i].clone());
            let ghost old_buckets = buckets@;
            buckets.push(bucket);
            proof {
                let url = prs@[i as int].url@;
                assert(distinct_urls(now) == urls.push(url));
                before.lemma_all_neg_filter_empty(has_url(url));
                assert forall|c: int| 0 <= c < buckets@.len() implies (#[trigger] buckets@[c])@
                    == now.filter(has_url(distinct_urls(now)[c])) by {
                    if c < m {
                        assert(buckets@[c] == old_buckets[c]);
                        assert(distinct_urls(now)[c] == urls[c]);
                    } else {
                        assert(buckets@[c]@ =~= seq![prs@[i as int]]);
                    }
                }
            }
        }
        i += 1;
    }
    proof {
        assert(prs@.take(n as int) =~= prs@);
    }
    buckets
}

/// What a run keeps of `prs`: for each distinct url, in the order in which
/// the urls first occur, the winner among the items with that url.
pub open spec fn merged(prs: Seq<PullRequest>, order: Seq<Seq<char>>) -> Seq<PullRequest> {
    Seq::new(
        distinct_urls(prs).len(),
        |i: int|
            {
                let bucket = prs.filter(has_url(distinct_urls(prs)[i]));
                bucket[winner_index(bucket, order)]
            },
    )
}

/// Merges what the searches returned into one list: one pull request for
/// each url, the one whose label ranks first in `attribution_order`, taken
/// whole as its search returned it.
pub fn merge_pull_requests(prs: &Vec<PullRequest>, attribution_order: &Vec<String>) -> (unique:
    Vec<PullRequest>)
    ensures
        unique@ == merged(prs@, views(attribution_order@)),
{
    let buckets = group_by_url(prs);
    let mut unique: Vec<PullRequest> = Vec::new();
    let m = buckets.len();
    let mut b: usize = 0;
    while b < m
        invariant
            b <= m,
            m == buckets@.len(),
            m == distinct_urls(prs@).len(),
            forall|c: int|
                0 <= c < m ==> (#[trigger] buckets@[c])@ == prs@.filter(
                    has_url(distinct_urls(prs@)[c]),
                ),
            forall|c: int| 0 <= c < m ==> (#[trigger] buckets@[c])@.len() > 0,
            unique@.len() == b,
            forall|c: int|
                0 <= c < b ==> unique@[c] == merged(prs@, views(attribution_order@))[c],
        decreases m - b,
    {
        let selected = if buckets[b].len() == 1 {
            proof {
                let bucket = buckets@[b as int]@;
                let order = views(attribution_order@);
                assert(wins(bucket, order, 0));
                lemma_winner_is(bucket, order, 0);
            }
            buckets[b][0].clone()
        } else {
            select_pr_with_attribution_priority(buckets[b].as_slice(), attribution_order)
        };
        unique.push(selected);
        b += 1;
    }
    unique
}

/// The merged list holds no url twice.
pub proof fn lemma_merged_urls_distinct(prs: Seq<PullRequest>, order: Seq<Seq<char>>)
    ensures
        urls_distinct(merged(prs, order)),
{
    lemma_distinct_urls(prs);
    assert forall|i: int, j: int| 0 <= i < j < merged(prs, order).len() implies merged(
        prs,
        order,
    )[i].url@ != merged(prs, order)[j].url@ by {
        lemma_merged_item(prs, order, i);
        lemma_merged_item(prs, order, j);
    }
}

/// The item that the merged list holds at `i` is an item of the input, has
/// the `i`-th distinct url, and no item of the input with that url ranks
/// before it.
pub proof fn lemma_merged_item(prs: Seq<PullRequest>, order: Seq<Seq<char>>, i: int)
    requires
        0 <= i < merged(prs, order).len(),
    ensures
        merged(prs, order)[i].url@ == distinct_urls(prs)[i],
        prs.contains(merged(prs, order)[i]),
        forall|k: int|
            0 <= k < prs.len() && (#[trigger] prs[k]).url@ == merged(prs, order)[i].url@
                ==> priority(order, merged(prs, order)[i]) <= priority(order, prs[k]),
{
    let url = distinct_urls(prs)[i];
    let bucket = prs.filter(has_url(url));
    lemma_distinct_urls(prs);
    assert(url_occurs(prs, url));
    let k0 = choose|k: int| 0 <= k < prs.len() && #[trigger] prs[k].url@ == url;
    prs.lemma_filter_contains(has_url(url), k0);
    assert(bucket.len() > 0) by {
        let j = choose|j: int| 0 <= j < bucket.len() && bucket[j] == prs[k0];
    }
    lemma_winner_exists(bucket, order);
    let w = winner_index(bucket, order);
    assert(wins(bucket, order, w));
    prs.lemma_filter_pred(has_url(url), w);
    assert(bucket.contains(bucket[w]));
    prs.lemma_filter_contains_rev(has_url(url), bucket[w]);
    assert forall|k: int|
        0 <= k < prs.len() && (#[trigger] prs[k]).url@ == url implies priority(order, bucket[w])
        <= priority(order, prs[k]) by {
        prs.lemma_filter_contains(has_url(url), k);
        let j = choose|j: int| 0 <= j < bucket.len() && bucket[j] == prs[k];
        assert(priority(order, bucket[w]) <= priority(order, bucket[j]));
    }
}

/// A bucket that is not empty has a winner.
pub proof fn lemma_winner_exists(bucket: Seq<PullRequest>, order: Seq<Seq<char>>)
    requires
        bucket.len() > 0,
    ensures
        wins(bucket, order, winner_index(bucket, order)),
    decreases bucket.len(),
{
    if bucket.len() == 1 {
        assert(wins(bucket, order, 0));
    } else {
        let rest = bucket.drop_last();
        lemma_winner_exists(rest, order);
        let w = winner_index(rest, order);
        let last = bucket.len() - 1;
        assert(forall|j: int| 0 <= j < rest.len() ==> rest[j] == bucket[j]);
        if priority(order, bucket[last]) < priority(order, rest[w]) {
            assert forall|j: int| 0 <= j < bucket.len() implies priority(order, bucket[last])
                <= priority(order, #[trigger] bucket[j]) by {
                if j < last {
                    assert(priority(order, rest[w]) <= priority(order, rest[j]));
                }
            }
            assert forall|j: int| 0 <= j < last implies priority(order, bucket[last]) < priority(
                order,
                #[trigger] bucket[j],
            ) by {
                assert(priority(order, rest[w]) <= priority(order, rest[j]));
            }
            assert(wins(bucket, order, last));
        } else {
            assert forall|j: int| 0 <= j < bucket.len() implies priority(order, bucket[w])
                <= priority(order, #[trigger] bucket[j]) by {
                if j < last {
                    assert(priority(order, rest[w]) <= priority(order, rest[j]));
                }
            }
            assert forall|j: int| 0 <= j < w implies priority(order, bucket[w]) < priority(
                order,
                #[trigger] bucket[j],
            ) by {
                assert(priority(order, rest[w]) < priority(order, rest[j]));
            }
            assert(wins(bucket, order, w));
        }
    }
}

/// Every url of the input is a url of the merged list.
pub proof fn lemma_merged_covers(prs: Seq<PullRequest>, order: Seq<Seq<char>>, k: int)
    requires
        0 <= k < prs.len(),
    ensures
        url_occurs(merged(prs, order), prs[k].url@),
{
    lemma_distinct_urls(prs);
    let urls = distinct_urls(prs);
    assert(urls.contains(prs[k].url@));
    let i = choose|i: int| 0 <= i < urls.len() && urls[i] == prs[k].url@;
    lemma_merged_item(prs, order, i);
}

/// The merged list holds exactly one item for each url of the input: no
/// url twice and every url of the input once. Each item is an item of the
/// input, taken whole, and no item of the input with the same url has a
/// label that ranks before its label.
pub proof fn lemma_one_item_per_url(prs: Seq<PullRequest>, order: Seq<Seq<char>>)
    ensures
        urls_distinct(merged(prs, order)),
        forall|k: int|
            0 <= k < prs.len() ==> url_occurs(merged(prs, order), (#[trigger] prs[k]).url@),
        forall|i: int|
            0 <= i < merged(prs, order).len() ==> prs.contains(#[trigger] merged(prs, order)[i]),
        forall|i: int, k: int|
            0 <= i < merged(prs, order).len() && 0 <= k < prs.len() && (#[trigger] prs[k]).url@ == (
            #[trigger] merged(prs, order)[i]).url@ ==> priority(order, merged(prs, order)[i])
                <= priority(order, prs[k]),
{
    lemma_merged_urls_distinct(prs, order);
    assert forall|k: int| 0 <= k < prs.len() implies url_occurs(
        merged(prs, order),
        (#[trigger] prs[k]).url@,
    ) by {
        lemma_merged_covers(prs, order, k);
    }
    assert forall|i: int| 0 <= i < merged(prs, order).len() implies prs.contains(
        #[trigger] merged(prs, order)[i],
    ) by {
        lemma_merged_item(prs, order, i);
    }
    assert forall|i: int, k: int|
        0 <= i < merged(prs, order).len() && 0 <= k < prs.len() && (#[trigger] prs[k]).url@ == (
        #[trigger] merged(prs, order)[i]).url@ implies priority(order, merged(prs, order)[i])
        <= priority(order, prs[k]) by {
        lemma_merged_item(prs, order, i);
    }
}

/// A pull request that some search with a listed name returned is never
/// attributed to a search whose name is not listed.
pub proof fn lemma_listed_label_beats_unlisted(
    prs: Seq<PullRequest>,
    order: Seq<Seq<char>>,
    i: int,
    k: int,
)
    requires
        0 <= i < merged(prs, order).len(),
        0 <= k < prs.len(),
        prs[k].url@ == merged(prs, order)[i].url@,
        order.contains(prs[k].meta.label@),
    ensures
        order.contains(merged(prs, order)[i].meta.label@),
{
    lemma_merged_item(prs, order, i);
    lemma_rank_of(order, prs[k].meta.label@);
    lemma_rank_of(order, merged(prs, order)[i].meta.label@);
}

/// `pr` as the search `query` hands it on: labelled with the search's name
/// and muted by default as the search is.
pub open spec fn tagged(pr: PullRequest, query: Query) -> PullRequest {
    PullRequest { meta: Meta { label: query.query_name, default_mute: query.mute }, ..pr }
}

/// Each item of `prs` tagged for `query`.
pub open spec fn tagged_all(prs: Seq<PullRequest>, query: Query) -> Seq<PullRequest> {
    Seq::new(prs.len(), |i: int| tagged(prs[i], query))
}

/// Tags what the search `query` returned: every item gets the search's name
/// as its label and the search's mute flag as its default.
pub fn tag_pull_requests(prs: &Vec<PullRequest>, query: &Query) -> (out: Vec<PullRequest>)
    ensures
        out@ == tagged_all(prs@, *query),
{
    let mut out: Vec<PullRequest> = Vec::new();
    let n = prs.len();
    let mut i: usize = 0;
    while i < n
        invariant
            i <= n,
            n == prs@.len(),
            out@ == tagged_all(prs@, *query).take(i as int),
        decreases n - i,
    {
        let mut pr = prs[i].clone();
        pr.meta = Meta { label: query.query_name.clone(), default_mute: query.mute };
        out.push(pr);
        assert(out@ =~= tagged_all(prs@, *query).take(i + 1));
        i += 1;
    }
    assert(tagged_all(prs@, *query).take(n as int) =~= tagged_all(prs@, *query));
    out
}

/// What a pass does next.
#[derive(Debug)]
pub enum SyncStep {
    /// Run the search at this position of the configuration and record what
    /// it gives.
    RunQuery(usize),
    /// Every search has answered: replace the stored snapshot by this list.
    ReplaceSnapshot(Vec<PullRequest>),
}

/// One pass over the configured searches, as far as it has come.
#[derive(Debug)]
pub struct SyncPass {
    /// How many searches have answered.
    pub answered: usize,
    /// What they returned, tagged, in the order of the searches.
    pub gathered: Vec<PullRequest>,
}

/// Whether `step` is what the pass `pass` does next: the first search that
/// has not answered, or, once all have, the replacing of the snapshot by
/// the merged list.
pub open spec fn is_next_step(pass: SyncPass, config: Config, step: SyncStep) -> bool {
    match step {
        SyncStep::RunQuery(i) => i == pass.answered && i < config.queries@.len(),
        SyncStep::ReplaceSnapshot(prs) => pass.answered >= config.queries@.len() && prs@
            == merged(pass.gathered@, views(config.attribution_order@)),
    }
}

/// Whether recording `outcome` leads from the pass `before` to the pass
/// `after` with the result `done`.
///
/// What a search returned is tagged for that search and added to what was
/// gathered. A failure is reported with the search's name and the
/// diagnostic, and leaves the pass as it was. Where no search is
/// outstanding the outcome is dropped.
pub open spec fn recorded(
    before: SyncPass,
    after: SyncPass,
    config: Config,
    outcome: Result<Vec<PullRequest>, String>,
    done: Result<(), Error>,
) -> bool {
    if before.answered >= config.queries@.len() {
        done is Ok && after == before
    } else {
        match outcome {
            Ok(prs) => {
                &&& done is Ok
                &&& after.answered == before.answered + 1
                &&& after.gathered@ == before.gathered@ + tagged_all(
                    prs@,
                    config.queries@[before.answered as int],
                )
            },
            Err(diagnostic) => {
                &&& done matches Err(Error::CollaboratorFailure { query, diagnostic: reported })
                &&& query == config.queries@[before.answered as int].query_name
                &&& reported == diagnostic
                &&& after == before
            },
        }
    }
}

impl SyncPass {
    /// A pass in which no search has run yet.
    pub fn start() -> (pass: SyncPass)
        ensures
            pass.answered == 0,
            pass.gathered@.len() == 0,
    {
        SyncPass { answered: 0, gathered: Vec::new() }
    }

    /// The next step: the first search that has not answered, or, once all
    /// have, the merged list that replaces the snapshot.
    pub fn next_step(&self, config: &Config) -> (step: SyncStep)
        ensures
            is_next_step(*self, *config, step),
    {
        if self.answered < config.queries.len() {
            SyncStep::RunQuery(self.answered)
        } else {
            SyncStep::ReplaceSnapshot(
                merge_pull_requests(&self.gathered, &config.attribution_order),
            )
        }
    }

    /// Records what the search that `next_step` asked for has given.
    ///
    /// A failure ends the pass: nothing is to be stored.
    pub fn record(&mut self, config: &Config, outcome: Result<Vec<PullRequest>, String>) -> (done:
        Result<(), Error>)
        ensures
            recorded(*old(self), *final(self), *config, outcome, done),
    {
        if self.answered >= config.queries.len() {
            return Ok(());
        }
        let query = &config.queries[self.answered];
        match outcome {
            Ok(prs) => {
                let mut found = tag_pull_requests(&prs, query);
                self.gathered.append(&mut found);
                self.answered = self.answered + 1;
                Ok(())
            },
            Err(diagnostic) => Err(
                Error::CollaboratorFailure { query: query.query_name.clone(), diagnostic },
            ),
        }
    }
}

/// The two things a continuous run does between passes.
#[derive(Debug)]
pub enum LoopStep {
    /// Sleep for this many seconds, then run the next pass.
    SleepThenRun(u64),
    /// Give up and report the error.
    Stop(Error),
}

/// Runs passes, one after the other.
#[derive(Debug)]
pub struct Synchronizer {
    /// The pause between two passes, in seconds.
    pub interval_secs: u64,
}

impl Synchronizer {
    /// A synchronizer that pauses a minute between passes.
    pub fn new() -> (synchronizer: Self)
        ensures
            synchronizer.interval_secs == 60,
    {
        Synchronizer { interval_secs: 60 }
    }

    /// One step of a pass: records what the search that was asked for last
    /// has given, if anything is handed in, and says what to do next.
    ///
    /// A pass begins with `SyncPass::start` and a first call without an
    /// outcome. Each `RunQuery` is answered by a call with the outcome of
    /// that search, until `ReplaceSnapshot` hands out the list to store. A
    /// search that failed fails the pass: the error names the search, and
    /// nothing is to be stored.
    pub fn run_once(
        &self,
        config: &Config,
        pass: &mut SyncPass,
        outcome: Option<Result<Vec<PullRequest>, String>>,
    ) -> (next: Result<SyncStep, Error>)
        ensures
            match outcome {
                None => *final(pass) == *old(pass) && (next matches Ok(step) && is_next_step(
                    *final(pass),
                    *config,
                    step,
                )),
                Some(given) => match next {
                    Ok(step) => recorded(*old(pass), *final(pass), *config, given, Ok(()))
                        && is_next_step(*final(pass), *config, step),
                    Err(e) => recorded(*old(pass), *final(pass), *config, given, Err(e)),
                },
            },
    {
        match outcome {
            None => {},
            Some(given) => {
                match pass.record(config, given) {
                    Ok(_) => {},
                    Err(e) => {
                        return Err(e);
                    },
                }
            },
        }
        Ok(pass.next_step(config))
    }

    /// What a continuous run does once a pass has ended with `outcome`.
    ///
    /// After a pass that went through, and after one in which a search
    /// failed, it sleeps and tries again: a failing search does not end the
    /// run. Any other error does.
    pub fn run_blocking(&self, outcome: Result<(), Error>) -> (step: LoopStep)
        ensures
            match outcome {
                Ok(_) => step == LoopStep::SleepThenRun(self.interval_secs),
                Err(Error::CollaboratorFailure { .. }) => step == LoopStep::SleepThenRun(
                    self.interval_secs,
                ),
                Err(e) => step == LoopStep::Stop(e),
            },
    {
        match outcome {
            Ok(_) => LoopStep::SleepThenRun(self.interval_secs),
            Err(Error::CollaboratorFailure { .. }) => LoopStep::SleepThenRun(self.interval_secs),
            Err(e) => LoopStep::Stop(e),
        }
    }
}

} // verus!
