//! Common-prefix elimination: a maximal shared leading run of identical code
//! points that cannot open a contraction is dropped before weighting. When
//! shifting is on and the last dropped code point carries a variable weight,
//! the drop is retracted by one position (or abandoned) so the shift state at
//! the comparison boundary stays correct.

use crate::tables::{set_contains, Tables, TablesView};
use vstd::prelude::*;

verus! {

/// Whether position 0 of the two sequences may be dropped: equal code points
/// that trigger no contraction lookahead.
pub open spec fn droppable(a: Seq<u32>, b: Seq<u32>, tv: TablesView) -> bool {
    &&& a.len() > 0
    &&& b.len() > 0
    &&& a[0] == b[0]
    &&& !tv.need_two.contains(a[0])
    &&& !tv.need_three.contains(a[0])
}

/// The length of the maximal droppable common prefix.
pub open spec fn spec_find_prefix(a: Seq<u32>, b: Seq<u32>, tv: TablesView) -> int
    decreases a.len(),
{
    if droppable(a, b, tv) {
        1 + spec_find_prefix(a.skip(1), b.skip(1), tv)
    } else {
        0
    }
}

/// The prefix length never exceeds either input.
pub proof fn lemma_find_prefix_bound(a: Seq<u32>, b: Seq<u32>, tv: TablesView)
    ensures
        0 <= spec_find_prefix(a, b, tv) <= a.len(),
        spec_find_prefix(a, b, tv) <= b.len(),
        forall|k: int|
            0 <= k < spec_find_prefix(a, b, tv) ==> #[trigger] a[k] == b[k],
    decreases a.len(),
{
    if droppable(a, b, tv) {
        lemma_find_prefix_bound(a.skip(1), b.skip(1), tv);
        assert forall|k: int| 0 <= k < spec_find_prefix(a, b, tv) implies #[trigger] a[k]
            == b[k] by {
            if k > 0 {
                assert(a.skip(1)[k - 1] == b.skip(1)[k - 1]);
            }
        }
    }
}

/// Both sequences after prefix elimination.
pub open spec fn spec_trim(a: Seq<u32>, b: Seq<u32>, shifting: bool, tv: TablesView) -> (
    Seq<u32>,
    Seq<u32>,
) {
    let p = spec_find_prefix(a, b, tv);
    if p > 0 {
        if shifting && tv.variable.contains(a[p - 1]) {
            if p > 1 {
                if tv.variable.contains(a[p - 2]) {
                    (a, b)
                } else {
                    (a.skip(p - 1), b.skip(p - 1))
                }
            } else {
                (a, b)
            }
        } else {
            (a.skip(p), b.skip(p))
        }
    } else {
        (a, b)
    }
}

/// The maximal droppable common prefix of the two buffers.
pub fn find_prefix(a: &Vec<u32>, b: &Vec<u32>, t: &Tables) -> (p: usize)
    ensures
        p == spec_find_prefix(a@, b@, t@),
        p <= a@.len(),
        p <= b@.len(),
{
    let mut i: usize = 0;
    proof {
        assert(a@.skip(0) =~= a@);
        assert(b@.skip(0) =~= b@);
        lemma_find_prefix_bound(a@, b@, t@);
    }
    loop
        invariant
            i <= a@.len(),
            i <= b@.len(),
            spec_find_prefix(a@, b@, t@) == i + spec_find_prefix(
                a@.skip(i as int),
                b@.skip(i as int),
                t@,
            ),
            spec_find_prefix(a@, b@, t@) <= a@.len(),
        ensures
            spec_find_prefix(a@.skip(i as int), b@.skip(i as int), t@) == 0,
            i <= a@.len(),
            i <= b@.len(),
        decreases a@.len() - i,
    {
        if i >= a.len() || i >= b.len() {
            break ;
        }
        if a[i] != b[i] || set_contains(&t.need_two, a[i]) || set_contains(&t.need_three, a[i]) {
            break ;
        }
        proof {
            assert(a@.skip(i as int).skip(1) =~= a@.skip(i + 1));
            assert(b@.skip(i as int).skip(1) =~= b@.skip(i + 1));
        }
        i += 1;
    }
    i
}

/// Removes the first `n` elements of a buffer, keeping the rest in order.
fn drain_front(v: &mut Vec<u32>, n: usize)
    requires
        n <= old(v)@.len(),
    ensures
        final (v)@ == old(v)@.skip(n as int),
{
    let mut out: Vec<u32> = Vec::new();
    let mut i: usize = n;
    while i < v.len()
        invariant
            n <= i <= v@.len(),
            v@ == old(v)@,
            out@ == v@.subrange(n as int, i as int),
        decreases v@.len() - i,
    {
        out.push(v[i]);
        proof {
            assert(v@.subrange(n as int, i + 1) =~= v@.subrange(n as int, i as int).push(
                v@[i as int],
            ));
        }
        i += 1;
    }
    proof {
        assert(v@.subrange(n as int, v@.len() as int) =~= v@.skip(n as int));
    }
    *v = out;
}

/// Drops the maximal droppable common prefix of the two buffers, retracting
/// the drop at a shift-state boundary as the shifted mode requires.
pub fn trim_prefix(a: &mut Vec<u32>, b: &mut Vec<u32>, shifting: bool, t: &Tables)
    ensures
        final (a)@ == spec_trim(old(a)@, old(b)@, shifting, t@).0,
        final (b)@ == spec_trim(old(a)@, old(b)@, shifting, t@).1,
{
    let prefix_len = find_prefix(a, b, t);
    if prefix_len > 0 {
        if shifting && set_contains(&t.variable, a[prefix_len - 1]) {
            if prefix_len > 1 {
                if set_contains(&t.variable, a[prefix_len - 2]) {
                    return ;
                }
                drain_front(a, prefix_len - 1);
                drain_front(b, prefix_len - 1);
            }
            return ;
        }
        drain_front(a, prefix_len);
        drain_front(b, prefix_len);
    }
}

} // verus!
