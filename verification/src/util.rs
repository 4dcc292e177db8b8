//! Small helpers shared by the rest of the crate: moving round a list of
//! values, and ranking a name by its place in a list of names.

use vstd::prelude::*;

verus! {

/// The texts of `values`, one sequence of characters for each string.
pub open spec fn views(values: Seq<String>) -> Seq<Seq<char>> {
    Seq::new(values.len(), |i: int| values[i]@)
}

/// Whether `i` is the first position of `values` that holds `curr`.
pub open spec fn is_first_occurrence(values: Seq<Seq<char>>, curr: Seq<char>, i: int) -> bool {
    &&& 0 <= i < values.len()
    &&& values[i] == curr
    &&& forall|j: int| 0 <= j < i ==> values[j] != curr
}

/// Whether `i` is the last position of `values` that holds `curr`.
pub open spec fn is_last_occurrence(values: Seq<Seq<char>>, curr: Seq<char>, i: int) -> bool {
    &&& 0 <= i < values.len()
    &&& values[i] == curr
    &&& forall|j: int| i < j < values.len() ==> values[j] != curr
}

/// The value that follows `curr` in `values`; see [`cycle`].
pub open spec fn cycle_spec(curr: Seq<char>, values: Seq<Seq<char>>) -> Seq<char> {
    if values.contains(curr) {
        let i = choose|i: int| is_first_occurrence(values, curr, i);
        values[(i + 1) % (values.len() as int)]
    } else if values.len() == 0 {
        curr
    } else {
        values[0]
    }
}

/// Where `i` is the first position of `curr`, `cycle_spec` is the value one
/// step further on, wrapping round at the end.
pub proof fn lemma_cycle_at(curr: Seq<char>, values: Seq<Seq<char>>, i: int)
    requires
        is_first_occurrence(values, curr, i),
    ensures
        cycle_spec(curr, values) == values[(i + 1) % (values.len() as int)],
{
    assert(values.contains(curr));
    let k = choose|k: int| is_first_occurrence(values, curr, k);
    assert(is_first_occurrence(values, curr, k));
    assert(k == i) by {
        if k < i {
            assert(values[k] != curr);
        }
        if i < k {
            assert(values[i] != curr);
        }
    }
}

/// The value that follows `curr` in `values`, wrapping round at the end.
///
/// The first occurrence of `curr` decides. Where `curr` does not occur the
/// first value is returned, and `curr` itself where there are no values.
pub fn cycle(curr: &str, values: &[String]) -> (next: String)
    ensures
        next@ == cycle_spec(curr@, views(values@)),
{
    let n = values.len();
    let wanted = curr.to_owned();
    let mut i: usize = 0;
    while i < n
        invariant
            i <= n,
            n == values@.len(),
            wanted@ == curr@,
            forall|j: int| 0 <= j < i ==> views(values@)[j] != curr@,
        decreases n - i,
    {
        if values[i] == wanted {
            proof {
                assert(views(values@)[i as int] == curr@);
                lemma_cycle_at(curr@, views(values@), i as int);
            }
            let next_index = (i + 1) % n;
            return values[next_index].clone();
        }
        i += 1;
    }
    assert(!views(values@).contains(curr@));
    if n == 0 {
        wanted
    } else {
        values[0].clone()
    }
}

/// The rank of `name` in `order`: the last position at which it is listed,
/// and the length of `order`, which is behind every listed name, where it is
/// not listed at all.
pub open spec fn rank_of(order: Seq<Seq<char>>, name: Seq<char>) -> int {
    if order.contains(name) {
        choose|i: int| is_last_occurrence(order, name, i)
    } else {
        order.len() as int
    }
}

/// A name that is listed has a last position.
pub proof fn lemma_last_occurrence_exists(order: Seq<Seq<char>>, name: Seq<char>)
    requires
        order.contains(name),
    ensures
        exists|i: int| is_last_occurrence(order, name, i),
    decreases order.len(),
{
    let n = order.len() as int;
    if order[n - 1] == name {
        assert(is_last_occurrence(order, name, n - 1));
    } else {
        let rest = order.drop_last();
        let k = choose|k: int| 0 <= k < order.len() && order[k] == name;
        assert(rest[k] == name);
        lemma_last_occurrence_exists(rest, name);
        let i = choose|i: int| is_last_occurrence(rest, name, i);
        assert(order[i] == rest[i]);
        assert forall|j: int| i < j < order.len() implies order[j] != name by {
            if j < n - 1 {
                assert(rest[j] == order[j]);
            }
        }
        assert(is_last_occurrence(order, name, i));
    }
}

/// A listed name ranks at its last position, an unlisted one at the length
/// of the list.
pub proof fn lemma_rank_of(order: Seq<Seq<char>>, name: Seq<char>)
    ensures
        order.contains(name) ==> is_last_occurrence(order, name, rank_of(order, name)),
        !order.contains(name) ==> rank_of(order, name) == order.len(),
        0 <= rank_of(order, name) <= order.len(),
{
    if order.contains(name) {
        lemma_last_occurrence_exists(order, name);
    }
}

/// The last position of a listed name is its rank.
pub proof fn lemma_rank_at(order: Seq<Seq<char>>, name: Seq<char>, i: int)
    requires
        is_last_occurrence(order, name, i),
    ensures
        rank_of(order, name) == i,
{
    assert(order.contains(name));
    lemma_rank_of(order, name);
    let r = rank_of(order, name);
    if r < i {
        assert(order[i] != name);
    }
    if i < r {
        assert(order[r] != name);
    }
}

/// The rank of `name` in `order`.
pub fn rank_in(order: &Vec<String>, name: &String) -> (rank: usize)
    ensures
        rank == rank_of(views(order@), name@),
{
    let n = order.len();
    let mut rank: usize = n;
    let mut i: usize = 0;
    while i < n
        invariant
            i <= n,
            n == order@.len(),
            views(order@).take(i as int).contains(name@) ==> is_last_occurrence(
                views(order@).take(i as int),
                name@,
                rank as int,
            ),
            !views(order@).take(i as int).contains(name@) ==> rank == n,
        decreases n - i,
    {
        let ghost before = views(order@).take(i as int);
        let ghost now = views(order@).take(i + 1);
        assert(now.drop_last() =~= before);
        assert(now.last() == order@[i as int]@);
        if order[i] == *name {
            rank = i;
        } else {
            proof {
                if before.contains(name@) {
                    assert(now[rank as int] == before[rank as int]);
                    assert(now.contains(name@));
                } else {
                    assert forall|j: int| 0 <= j < now.len() implies now[j] != name@ by {
                        if j < before.len() {
                            assert(before[j] == now[j]);
                        }
                    }
                }
            }
        }
        i += 1;
    }
    proof {
        assert(views(order@).take(n as int) =~= views(order@));
        if views(order@).contains(name@) {
            lemma_rank_at(views(order@), name@, rank as int);
        }
    }
    rank
}

} // verus!
