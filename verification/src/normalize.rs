//! Canonical preprocessing: code points are decomposed to canonical (NFD)
//! form using the supplied decomposition table, and every maximal run of
//! non-starter code points is then stably reordered by ascending canonical
//! combining class, so that combining marks are weighted in a fixed relative
//! order regardless of input order.

use crate::tables::{singles_entries, SinglesTable};
use vstd::prelude::*;

verus! {

/// The canonical combining class of a code point, as the Unicode data
/// tables assign it.
pub uninterp spec fn ccc_of(cp: u32) -> u8;

/// Relies on unicode_canonical_combining_class::get_canonical_combining_class_u32:
/// the canonical combining class is a pure table lookup, a function of the
/// code point alone (code points beyond the table get class 0).
#[verifier::external_body]
pub fn ccc(cp: u32) -> (r: u8)
    ensures
        r == ccc_of(cp),
{
    unicode_canonical_combining_class::get_canonical_combining_class_u32(cp) as u8
}

/// The full canonical decomposition of one code point: its table entry, or
/// itself when it does not decompose.
pub open spec fn spec_decomp_one(c: u32, decomp: Map<u32, Seq<u32>>) -> Seq<u32> {
    if decomp.contains_key(c) {
        decomp[c]
    } else {
        seq![c]
    }
}

/// The canonical decomposition of a sequence: each code point replaced by its
/// full decomposition.
pub open spec fn spec_decompose(s: Seq<u32>, decomp: Map<u32, Seq<u32>>) -> Seq<u32>
    decreases s.len(),
{
    if s.len() == 0 {
        Seq::empty()
    } else {
        spec_decompose(s.drop_last(), decomp) + spec_decomp_one(s.last(), decomp)
    }
}

/// Stable insertion of one code point at the end of a sequence: a non-starter
/// moves left past every non-starter of strictly greater combining class.
pub open spec fn reorder_insert(s: Seq<u32>, c: u32) -> Seq<u32>
    decreases s.len(),
{
    if ccc_of(c) == 0 || s.len() == 0 {
        s.push(c)
    } else if ccc_of(s.last()) == 0 || ccc_of(s.last()) <= ccc_of(c) {
        s.push(c)
    } else {
        reorder_insert(s.drop_last(), c).push(s.last())
    }
}

/// Canonical reordering: the stable sort of every maximal non-starter run by
/// ascending combining class, built by inserting left to right.
pub open spec fn spec_reorder(s: Seq<u32>) -> Seq<u32>
    decreases s.len(),
{
    if s.len() == 0 {
        Seq::empty()
    } else {
        reorder_insert(spec_reorder(s.drop_last()), s.last())
    }
}

/// Canonical (NFD-equivalent) form: decomposition followed by canonical
/// reordering.
pub open spec fn spec_nfd(s: Seq<u32>, decomp: Map<u32, Seq<u32>>) -> Seq<u32> {
    spec_reorder(spec_decompose(s, decomp))
}

/// Where the insertion scan stops, the insertion is a plain splice.
proof fn lemma_reorder_insert_at(s: Seq<u32>, c: u32, j: int)
    requires
        0 <= j <= s.len(),
        ccc_of(c) != 0,
        forall|k: int| j <= k < s.len() ==> ccc_of(#[trigger] s[k]) != 0 && ccc_of(s[k]) > ccc_of(c),
        j > 0 ==> (ccc_of(s[j - 1]) == 0 || ccc_of(s[j - 1]) <= ccc_of(c)),
    ensures
        reorder_insert(s, c) == s.take(j) + seq![c] + s.skip(j),
    decreases s.len() - j,
{
    if j == s.len() {
        assert(reorder_insert(s, c) == s.push(c));
        assert(s.take(j) + seq![c] + s.skip(j) =~= s.push(c));
    } else {
        assert(ccc_of(s.last()) != 0 && ccc_of(s.last()) > ccc_of(c));
        lemma_reorder_insert_at(s.drop_last(), c, j);
        assert(s.drop_last().take(j) =~= s.take(j));
        assert((s.take(j) + seq![c] + s.drop_last().skip(j)).push(s.last()) =~= s.take(j) + seq![c]
            + s.skip(j));
    }
}

/// Reorders a decomposed sequence in place.
fn reorder(chars: &mut Vec<u32>)
    ensures
        final (chars)@ == spec_reorder(old(chars)@),
{
    let mut out: Vec<u32> = Vec::new();
    let mut i: usize = 0;
    proof {
        assert(old(chars)@.take(0) =~= Seq::<u32>::empty());
    }
    while i < chars.len()
        invariant
            i <= chars@.len(),
            chars@ == old(chars)@,
            out@ == spec_reorder(chars@.take(i as int)),
        decreases chars@.len() - i,
    {
        let c = chars[i];
        let cc = ccc(c);
        let ghost pre = out@;
        if cc == 0 {
            out.push(c);
            proof {
                assert(reorder_insert(pre, c) == pre.push(c));
            }
        } else {
            let mut j: usize = out.len();
            while j > 0
                invariant
                    j <= out@.len(),
                    out@ == pre,
                    cc == ccc_of(c),
                    forall|k: int|
                        j <= k < out@.len() ==> ccc_of(#[trigger] out@[k]) != 0 && ccc_of(out@[k])
                            > ccc_of(c),
                ensures
                    j <= out@.len(),
                    out@ == pre,
                    forall|k: int|
                        j <= k < out@.len() ==> ccc_of(#[trigger] out@[k]) != 0 && ccc_of(out@[k])
                            > ccc_of(c),
                    j > 0 ==> (ccc_of(out@[j - 1]) == 0 || ccc_of(out@[j - 1]) <= ccc_of(c)),
                decreases j,
            {
                let prev_cc = ccc(out[j - 1]);
                if prev_cc != 0 && prev_cc > cc {
                    j -= 1;
                } else {
                    break ;
                }
            }
            proof {
                lemma_reorder_insert_at(pre, c, j as int);
            }
            out.insert(j, c);
            proof {
                assert(out@ =~= pre.take(j as int) + seq![c] + pre.skip(j as int));
            }
        }
        proof {
            assert(chars@.take(i + 1).drop_last() =~= chars@.take(i as int));
            assert(chars@.take(i + 1).last() == chars@[i as int]);
        }
        i += 1;
    }
    proof {
        assert(chars@.take(chars@.len() as int) =~= chars@);
    }
    *chars = out;
}

/// Rewrites a scratch buffer into canonical (NFD-equivalent) order: full
/// canonical decomposition, then canonical reordering of non-starter runs.
pub fn make_nfd(chars: &mut Vec<u32>, decomp: &SinglesTable)
    ensures
        final (chars)@ == spec_nfd(old(chars)@, singles_entries(*decomp)),
{
    let mut dec: Vec<u32> = Vec::new();
    let mut i: usize = 0;
    proof {
        assert(old(chars)@.take(0) =~= Seq::<u32>::empty());
    }
    while i < chars.len()
        invariant
            i <= chars@.len(),
            chars@ == old(chars)@,
            dec@ == spec_decompose(chars@.take(i as int), singles_entries(*decomp)),
        decreases chars@.len() - i,
    {
        let c = chars[i];
        match decomp.get(c) {
            Some(row) => {
                dec.extend_from_slice(row.as_slice());
            },
            None => {
                dec.push(c);
            },
        }
        proof {
            assert(chars@.take(i + 1).drop_last() =~= chars@.take(i as int));
            assert(chars@.take(i + 1).last() == chars@[i as int]);
            assert(dec@ == spec_decompose(chars@.take(i + 1), singles_entries(*decomp)));
        }
        i += 1;
    }
    proof {
        assert(chars@.take(chars@.len() as int) =~= chars@);
    }
    reorder(&mut dec);
    *chars = dec;
}

} // verus!
