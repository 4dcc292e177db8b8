//! The order in which pull requests are shown: by the place of their search
//! in the display order, then by repository name, then by number.

use vstd::prelude::*;
use crate::gh::PullRequest;
use crate::text::{chars_of, is_lex_lt, lemma_lex_lt_transitive, lemma_lex_total, lex_lt};
use crate::util::{rank_in, rank_of, views};

verus! {

/// What a pull request is ordered by.
pub ghost struct DisplayKey {
    /// The rank of its label in the display order.
    pub rank: int,
    /// The name of its repository.
    pub repo: Seq<char>,
    /// Its number.
    pub number: int,
}

/// The key of `pr` under the display order `order`.
pub open spec fn display_key(order: Seq<Seq<char>>, pr: PullRequest) -> DisplayKey {
    DisplayKey {
        rank: rank_of(order, pr.meta.label@),
        repo: pr.repository.name@,
        number: pr.number as int,
    }
}

/// Whether `a` comes strictly before `b`: by rank, then by repository name
/// in lexicographic order, then by number.
pub open spec fn key_lt(a: DisplayKey, b: DisplayKey) -> bool {
    a.rank < b.rank || (a.rank == b.rank && (lex_lt(a.repo, b.repo) || (a.repo == b.repo
        && a.number < b.number)))
}

/// Whether `a` does not come after `b`.
pub open spec fn key_le(a: DisplayKey, b: DisplayKey) -> bool {
    !key_lt(b, a)
}

/// Of two keys one comes before the other or they are equal, and only one
/// of the three holds.
pub proof fn lemma_key_total(a: DisplayKey, b: DisplayKey)
    ensures
        key_lt(a, b) || a == b || key_lt(b, a),
        !(key_lt(a, b) && key_lt(b, a)),
        !key_lt(a, a),
{
    lemma_lex_total(a.repo, b.repo);
    lemma_lex_total(a.repo, a.repo);
}

/// Coming strictly before is transitive.
pub proof fn lemma_key_lt_transitive(a: DisplayKey, b: DisplayKey, c: DisplayKey)
    requires
        key_lt(a, b),
        key_lt(b, c),
    ensures
        key_lt(a, c),
{
    lemma_lex_total(a.repo, b.repo);
    lemma_lex_total(b.repo, c.repo);
    lemma_lex_total(a.repo, c.repo);
    if lex_lt(a.repo, b.repo) && lex_lt(b.repo, c.repo) {
        lemma_lex_lt_transitive(a.repo, b.repo, c.repo);
    }
}

/// Not coming after is transitive.
pub proof fn lemma_key_le_transitive(a: DisplayKey, b: DisplayKey, c: DisplayKey)
    requires
        key_le(a, b),
        key_le(b, c),
    ensures
        key_le(a, c),
{
    lemma_key_total(a, b);
    lemma_key_total(b, c);
    lemma_key_total(a, c);
    if key_lt(c, a) {
        if a == b {
        } else if b == c {
        } else {
            lemma_key_lt_transitive(a, b, c);
        }
    }
}

/// Whether the items of `prs` stand in display order.
pub open spec fn in_display_order(order: Seq<Seq<char>>, prs: Seq<PullRequest>) -> bool {
    forall|i: int, j: int|
        0 <= i < j < prs.len() ==> key_le(
            display_key(order, #[trigger] prs[i]),
            display_key(order, #[trigger] prs[j]),
        )
}

/// Where `pr` goes into `sorted`: behind the last item that does not come
/// after it.
pub open spec fn insert_position(
    order: Seq<Seq<char>>,
    sorted: Seq<PullRequest>,
    pr: PullRequest,
) -> int
    decreases sorted.len(),
{
    if sorted.len() == 0 || !key_lt(display_key(order, pr), display_key(order, sorted.last())) {
        sorted.len() as int
    } else {
        insert_position(order, sorted.drop_last(), pr)
    }
}

/// `prs` in display order; items with the same key keep the order in which
/// they came.
pub open spec fn display_sorted(order: Seq<Seq<char>>, prs: Seq<PullRequest>) -> Seq<PullRequest>
    decreases prs.len(),
{
    if prs.len() == 0 {
        Seq::empty()
    } else {
        let sorted = display_sorted(order, prs.drop_last());
        sorted.insert(insert_position(order, sorted, prs.last()), prs.last())
    }
}

/// Whether `pos` is a place for `pr` in `sorted`: every item from there on
/// comes after `pr`, and the item before does not.
pub open spec fn is_insert_position(
    order: Seq<Seq<char>>,
    sorted: Seq<PullRequest>,
    pr: PullRequest,
    pos: int,
) -> bool {
    &&& 0 <= pos <= sorted.len()
    &&& forall|j: int|
        pos <= j < sorted.len() ==> key_lt(
            display_key(order, pr),
            display_key(order, #[trigger] sorted[j]),
        )
    &&& pos > 0 ==> !key_lt(display_key(order, pr), display_key(order, sorted[pos - 1]))
}

/// `insert_position` is the one place for `pr`.
pub proof fn lemma_insert_position(
    order: Seq<Seq<char>>,
    sorted: Seq<PullRequest>,
    pr: PullRequest,
    pos: int,
)
    ensures
        is_insert_position(order, sorted, pr, insert_position(order, sorted, pr)),
        is_insert_position(order, sorted, pr, pos) ==> pos == insert_position(order, sorted, pr),
    decreases sorted.len(),
{
    let p = insert_position(order, sorted, pr);
    if sorted.len() == 0 || !key_lt(display_key(order, pr), display_key(order, sorted.last())) {
        if is_insert_position(order, sorted, pr, pos) && pos < sorted.len() {
            assert(key_lt(display_key(order, pr), display_key(order, sorted[sorted.len() - 1])));
        }
    } else {
        let rest = sorted.drop_last();
        lemma_insert_position(order, rest, pr, pos);
        assert forall|j: int| p <= j < sorted.len() implies key_lt(
            display_key(order, pr),
            display_key(order, #[trigger] sorted[j]),
        ) by {
            if j < rest.len() {
                assert(rest[j] == sorted[j]);
            }
        }
        if p > 0 {
            assert(rest[p - 1] == sorted[p - 1]);
        }
        if is_insert_position(order, sorted, pr, pos) {
            if pos == sorted.len() {
                assert(false);
            } else {
                assert forall|j: int| pos <= j < rest.len() implies key_lt(
                    display_key(order, pr),
                    display_key(order, #[trigger] rest[j]),
                ) by {
                    assert(rest[j] == sorted[j]);
                }
                if pos > 0 {
                    assert(rest[pos - 1] == sorted[pos - 1]);
                }
                assert(is_insert_position(order, rest, pr, pos));
            }
        }
    }
}

/// Putting an item at its place keeps the display order.
pub proof fn lemma_insert_keeps_order(
    order: Seq<Seq<char>>,
    sorted: Seq<PullRequest>,
    pr: PullRequest,
)
    requires
        in_display_order(order, sorted),
    ensures
        in_display_order(
            order,
            sorted.insert(insert_position(order, sorted, pr), pr),
        ),
{
    let p = insert_position(order, sorted, pr);
    let out = sorted.insert(p, pr);
    lemma_insert_position(order, sorted, pr, p);
    assert forall|i: int, j: int| 0 <= i < j < out.len() implies key_le(
        display_key(order, #[trigger] out[i]),
        display_key(order, #[trigger] out[j]),
    ) by {
        let ki = display_key(order, out[i]);
        let kj = display_key(order, out[j]);
        let kp = display_key(order, pr);
        if j < p {
            assert(out[i] == sorted[i] && out[j] == sorted[j]);
        } else if j == p {
            assert(out[i] == sorted[i]);
            assert(key_le(display_key(order, sorted[p - 1]), kp));
            if i < p - 1 {
                assert(key_le(display_key(order, sorted[i]), display_key(order, sorted[p - 1])));
            }
            lemma_key_le_transitive(ki, display_key(order, sorted[p - 1]), kp);
        } else if i == p {
            assert(out[j] == sorted[j - 1]);
            assert(key_lt(kp, display_key(order, sorted[j - 1])));
            lemma_key_total(kp, kj);
        } else if i < p {
            assert(out[i] == sorted[i] && out[j] == sorted[j - 1]);
        } else {
            assert(out[i] == sorted[i - 1] && out[j] == sorted[j - 1]);
        }
    }
}

/// The sorted list stands in display order.
pub proof fn lemma_display_sorted_in_order(order: Seq<Seq<char>>, prs: Seq<PullRequest>)
    ensures
        in_display_order(order, display_sorted(order, prs)),
        display_sorted(order, prs).len() == prs.len(),
    decreases prs.len(),
{
    if prs.len() > 0 {
        lemma_display_sorted_in_order(order, prs.drop_last());
        let sorted = display_sorted(order, prs.drop_last());
        lemma_insert_position(order, sorted, prs.last(), 0);
        lemma_insert_keeps_order(order, sorted, prs.last());
    }
}

/// The condition of having the key `key`.
pub open spec fn has_key(order: Seq<Seq<char>>, key: DisplayKey) -> spec_fn(PullRequest) -> bool {
    |pr: PullRequest| display_key(order, pr) == key
}

/// Sorting neither adds nor drops an item, and items with the same key stay
/// in the order in which they came: for each key, the items that have it
/// are the same before and after, in the same order.
pub proof fn lemma_display_sorted_stable(
    order: Seq<Seq<char>>,
    prs: Seq<PullRequest>,
    key: DisplayKey,
)
    ensures
        display_sorted(order, prs).filter(has_key(order, key)) == prs.filter(has_key(order, key)),
    decreases prs.len(),
{
    reveal(Seq::filter);
    let f = has_key(order, key);
    if prs.len() > 0 {
        let rest = prs.drop_last();
        let pr = prs.last();
        let sorted = display_sorted(order, rest);
        lemma_display_sorted_stable(order, rest, key);
        let p = insert_position(order, sorted, pr);
        lemma_insert_position(order, sorted, pr, p);
        let head = sorted.take(p);
        let tail = sorted.skip(p);
        let out = sorted.insert(p, pr);
        assert(out =~= (head + seq![pr]) + tail);
        assert(sorted =~= head + tail);
        Seq::filter_distributes_over_add(head + seq![pr], tail, f);
        Seq::filter_distributes_over_add(head, seq![pr], f);
        Seq::filter_distributes_over_add(head, tail, f);
        assert(seq![pr].drop_last() =~= Seq::<PullRequest>::empty());
        assert(Seq::<PullRequest>::empty().filter(f) =~= Seq::<PullRequest>::empty());
        if f(pr) {
            assert(seq![pr].filter(f) =~= seq![pr]);
            assert forall|j: int| 0 <= j < tail.len() implies !f(#[trigger] tail[j]) by {
                assert(tail[j] == sorted[p + j]);
                lemma_key_total(display_key(order, pr), display_key(order, sorted[p + j]));
            }
            tail.lemma_all_neg_filter_empty(f);
            assert(out.filter(f) =~= sorted.filter(f).push(pr));
        } else {
            assert(seq![pr].filter(f) =~= Seq::<PullRequest>::empty());
            assert(out.filter(f) =~= sorted.filter(f));
        }
    }
}

/// Whether `a` is shown strictly before `b` under `display_order`.
pub fn shown_before(a: &PullRequest, b: &PullRequest, display_order: &Vec<String>) -> (r: bool)
    ensures
        r == key_lt(
            display_key(views(display_order@), *a),
            display_key(views(display_order@), *b),
        ),
{
    let rank_a = rank_in(display_order, &a.meta.label);
    let rank_b = rank_in(display_order, &b.meta.label);
    if rank_a != rank_b {
        return rank_a < rank_b;
    }
    let name_a = chars_of(a.repository.name.as_str());
    let name_b = chars_of(b.repository.name.as_str());
    if is_lex_lt(&name_a, &name_b) {
        return true;
    }
    if is_lex_lt(&name_b, &name_a) {
        proof {
            lemma_lex_total(name_a@, name_b@);
        }
        return false;
    }
    proof {
        lemma_lex_total(name_a@, name_b@);
    }
    a.number < b.number
}

/// The pull requests of `prs` in the order in which they are shown: by the
/// rank of their label in `display_order`, a label that is not listed
/// coming last; then by repository name; then by number. Pull requests
/// that agree in all three keep their order.
pub fn sort_for_display(prs: &Vec<PullRequest>, display_order: &Vec<String>) -> (out: Vec<
    PullRequest,
>)
    ensures
        out@ == display_sorted(views(display_order@), prs@),
{
    let ghost order = views(display_order@);
    let mut out: Vec<PullRequest> = Vec::new();
    let n = prs.len();
    let mut i: usize = 0;
    assert(prs@.take(0) =~= Seq::<PullRequest>::empty());
    while i < n
        invariant
            i <= n,
            n == prs@.len(),
            order == views(display_order@),
            out@ == display_sorted(order, prs@.take(i as int)),
            out@.len() == i,
        decreases n - i,
    {
        let mut pos: usize = out.len();
        while pos > 0 && shown_before(&prs[i], &out[pos - 1], display_order)
            invariant
                pos <= out@.len(),
                i < n,
                n == prs@.len(),
                order == views(display_order@),
                forall|j: int|
                    pos <= j < out@.len() ==> key_lt(
                        display_key(order, prs@[i as int]),
                        display_key(order, #[trigger] out@[j]),
                    ),
            decreases pos,
        {
            pos -= 1;
        }
        proof {
            assert(is_insert_position(order, out@, prs@[i as int], pos as int));
            lemma_insert_position(order, out@, prs@[i as int], pos as int);
            assert(prs@.take(i + 1).drop_last() =~= prs@.take(i as int));
            assert(prs@.take(i + 1).last() == prs@[i as int]);
        }
        out.insert(pos, prs[i].clone());
        i += 1;
    }
    assert(prs@.take(n as int) =~= prs@);
    out
}

} // verus!
