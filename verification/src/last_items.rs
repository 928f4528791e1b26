use vstd::prelude::*;

verus! {

/// The last `n` items of `s` (all of them when there are fewer).
pub open spec fn last_items<A>(s: Seq<A>, n: nat) -> Seq<A> {
    if s.len() > n {
        s.subrange(s.len() - n, s.len() as int)
    } else {
        s
    }
}

/// Drops the oldest items of `items` until at most `max` remain.
pub fn keep_last<A>(items: &mut Vec<A>, max: usize)
    ensures
        final(items)@ == last_items(old(items)@, max as nat),
        final(items)@.len() <= max,
{
    let ghost start = items@;
    while items.len() > max
        invariant
            start.len() >= items@.len(),
            items@ == start.subrange(start.len() - items@.len(), start.len() as int),
            items@.len() > max ==> start.len() > max,
            items@.len() >= max || items@ == start,
        decreases items@.len(),
    {
        items.remove(0);
    }
    assert(items@ =~= last_items(start, max as nat));
}

} // verus!
