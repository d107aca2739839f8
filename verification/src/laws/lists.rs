//! Lists of lists, and what their concatenations hold.

use vstd::prelude::*;

verus! {

/// What one of the lists holds, their concatenation holds.
pub proof fn lemma_flatten_holds<A>(lists: Seq<Seq<A>>, i: int, j: int)
    requires
        0 <= i < lists.len(),
        0 <= j < lists[i].len(),
    ensures
        lists.flatten().contains(lists[i][j]),
    decreases lists.len(),
{
    let before = lists.drop_last();
    let last = lists.last();
    assert(before.push(last) =~= lists);
    before.lemma_flatten_push(last);
    let all = before.flatten() + last;
    assert(lists.flatten() == all);
    if i < before.len() {
        lemma_flatten_holds(before, i, j);
        let k = choose|k: int| 0 <= k < before.flatten().len() && before.flatten()[k]
            == lists[i][j];
        assert(all[k] == lists[i][j]);
    } else {
        assert(all[before.flatten().len() + j] == lists[i][j]);
    }
}

/// What the concatenation holds, one of the lists holds.
pub proof fn lemma_flatten_origin<A>(lists: Seq<Seq<A>>, k: int) -> (origin: (int, int))
    requires
        0 <= k < lists.flatten().len(),
    ensures
        0 <= origin.0 < lists.len(),
        0 <= origin.1 < lists[origin.0].len(),
        lists[origin.0][origin.1] == lists.flatten()[k],
    decreases lists.len(),
{
    if lists.len() == 0 {
        (0, 0)
    } else {
        let before = lists.drop_last();
        let last = lists.last();
        assert(before.push(last) =~= lists);
        before.lemma_flatten_push(last);
        if k < before.flatten().len() {
            lemma_flatten_origin(before, k)
        } else {
            (before.len() as int, k - before.flatten().len())
        }
    }
}

} // verus!
