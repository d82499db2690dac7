use vstd::prelude::*;

use crate::buffer::Layout;

verus! {

/// Whether a request for `l` at slot `c` of a cache whose slots hold the
/// layouts `ls` is served from the cache.
pub open spec fn is_hit(ls: Seq<Layout>, c: int, l: Layout) -> bool {
    0 <= c < ls.len() && ls[c] == l
}

/// The slot layouts after a request for `l` at slot `c`: the slot takes the
/// requested layout, and a request one past the last slot adds a slot.
pub open spec fn place(ls: Seq<Layout>, c: int, l: Layout) -> Seq<Layout> {
    if c < ls.len() {
        ls.update(c, l)
    } else {
        ls.push(l)
    }
}

/// The slot layouts after a pass that starts at slot `start` and makes the
/// requests `reqs` in order.
pub open spec fn replay(ls: Seq<Layout>, start: int, reqs: Seq<Layout>) -> Seq<Layout>
    decreases reqs.len(),
{
    if reqs.len() == 0 {
        ls
    } else {
        replay(place(ls, start, reqs[0]), start + 1, reqs.drop_first())
    }
}

/// How many requests of such a pass miss the cache, that is how many
/// backend allocations the pass makes.
pub open spec fn misses(ls: Seq<Layout>, start: int, reqs: Seq<Layout>) -> nat
    decreases reqs.len(),
{
    if reqs.len() == 0 {
        0
    } else {
        (if is_hit(ls, start, reqs[0]) {
            0nat
        } else {
            1nat
        }) + misses(place(ls, start, reqs[0]), start + 1, reqs.drop_first())
    }
}

/// The number of positions at which two request sequences differ.
pub open spec fn differing(a: Seq<Layout>, b: Seq<Layout>) -> nat
    decreases a.len(),
{
    if a.len() == 0 || b.len() == 0 {
        0
    } else {
        (if a[0] == b[0] {
            0nat
        } else {
            1nat
        }) + differing(a.drop_first(), b.drop_first())
    }
}

/// After a pass, slot `start + i` holds the `i`-th request, and every other
/// slot is as before.
proof fn lemma_replay_shape(ls: Seq<Layout>, start: int, reqs: Seq<Layout>)
    requires
        0 <= start <= ls.len(),
    ensures
        replay(ls, start, reqs).len() == if start + reqs.len() > ls.len() {
            start + reqs.len()
        } else {
            ls.len() as int
        },
        forall|i: int| 0 <= i < reqs.len() ==> #[trigger] replay(ls, start, reqs)[start + i] == reqs[i],
        forall|j: int|
            0 <= j < ls.len() && (j < start || j >= start + reqs.len()) ==> #[trigger] replay(
                ls,
                start,
                reqs,
            )[j] == ls[j],
    decreases reqs.len(),
{
    if reqs.len() > 0 {
        let next = place(ls, start, reqs[0]);
        let rest = reqs.drop_first();
        lemma_replay_shape(next, start + 1, rest);
        assert forall|i: int| 0 <= i < reqs.len() implies #[trigger] replay(ls, start, reqs)[start + i]
            == reqs[i] by {
            if i > 0 {
                assert(replay(next, start + 1, rest)[(start + 1) + (i - 1)] == rest[i - 1]);
            }
        }
    }
}

/// A pass against slots whose layouts from `start` on are the requests `a`
/// misses exactly where the requests `b` differ from `a`.
proof fn lemma_misses_against(ls: Seq<Layout>, start: int, a: Seq<Layout>, b: Seq<Layout>)
    requires
        0 <= start,
        start + a.len() <= ls.len(),
        a.len() == b.len(),
        forall|i: int| 0 <= i < a.len() ==> ls[start + i] == a[i],
    ensures
        misses(ls, start, b) == differing(a, b),
    decreases b.len(),
{
    if b.len() > 0 {
        let next = place(ls, start, b[0]);
        assert forall|i: int| 0 <= i < a.drop_first().len() implies next[(start + 1) + i]
            == a.drop_first()[i] by {
            assert(ls[start + (i + 1)] == a[i + 1]);
        }
        lemma_misses_against(next, start + 1, a.drop_first(), b.drop_first());
        assert(ls[start + 0] == a[0]);
    }
}

/// Running a pass once more after the counter is rewound to where it began
/// misses the cache, and so allocates, exactly as many times as there are
/// positions at which its requests differ from those of the earlier pass.
pub proof fn changed_requests_allocate(ls: Seq<Layout>, start: int, first: Seq<Layout>, second: Seq<Layout>)
    requires
        0 <= start <= ls.len(),
        first.len() == second.len(),
    ensures
        misses(replay(ls, start, first), start, second) == differing(first, second),
{
    lemma_replay_shape(ls, start, first);
    let after = replay(ls, start, first);
    assert forall|i: int| 0 <= i < first.len() implies after[start + i] == first[i] by {}
    lemma_misses_against(after, start, first, second);
}

proof fn lemma_differing_self(a: Seq<Layout>)
    ensures
        differing(a, a) == 0,
    decreases a.len(),
{
    if a.len() > 0 {
        lemma_differing_self(a.drop_first());
    }
}

/// Replaying the same requests from the same start makes no allocation and
/// leaves the slot layouts as the first pass left them.
pub proof fn replay_reuses_every_slot(ls: Seq<Layout>, start: int, reqs: Seq<Layout>)
    requires
        0 <= start <= ls.len(),
    ensures
        misses(replay(ls, start, reqs), start, reqs) == 0,
        replay(replay(ls, start, reqs), start, reqs) == replay(ls, start, reqs),
{
    changed_requests_allocate(ls, start, reqs, reqs);
    lemma_differing_self(reqs);
    let after = replay(ls, start, reqs);
    lemma_replay_shape(ls, start, reqs);
    lemma_replay_shape(after, start, reqs);
    assert forall|j: int| 0 <= j < after.len() implies #[trigger] replay(after, start, reqs)[j]
        == after[j] by {
        if start <= j < start + reqs.len() {
            assert(replay(after, start, reqs)[start + (j - start)] == reqs[j - start]);
            assert(after[start + (j - start)] == reqs[j - start]);
        }
    }
    assert(replay(after, start, reqs) =~= after);
}

/// A pass that starts at slot `start`, as a nested loop's does, leaves every
/// slot below `start` as it was and removes no slot.
pub proof fn inner_pass_keeps_outer_slots(ls: Seq<Layout>, start: int, reqs: Seq<Layout>)
    requires
        0 <= start <= ls.len(),
    ensures
        replay(ls, start, reqs).len() >= ls.len(),
        forall|j: int| 0 <= j < start ==> #[trigger] replay(ls, start, reqs)[j] == ls[j],
{
    lemma_replay_shape(ls, start, reqs);
}

} // verus!
