//! Helpers of the collation element generator: weight emission into the
//! reusable element buffer, implicit-weight derivation for untabulated code
//! points, combining-class checks for discontiguous matches, and removal of
//! pulled-forward code points after a contraction match.

use crate::normalize::{ccc, ccc_of};
use crate::tables::set_contains;
use crate::weights::{pack_weights, shift_weights, spec_pack, spec_shift, spec_shift_row};
use vstd::prelude::*;

verus! {

/// Whether the combining classes from position `i` on are strictly increasing
/// and nonzero, starting above `prev`.
pub open spec fn spec_ccc_ok_from(s: Seq<u32>, prev: u8, i: int) -> bool
    decreases s.len() - i,
{
    if i < 0 || i >= s.len() {
        true
    } else {
        ccc_of(s[i]) > prev && spec_ccc_ok_from(s, ccc_of(s[i]), i + 1)
    }
}

/// Whether a candidate window of combining marks has strictly increasing,
/// nonzero combining classes — the validity condition for a discontiguous
/// contraction match.
pub open spec fn spec_ccc_ok(s: Seq<u32>) -> bool {
    spec_ccc_ok_from(s, 0, 0)
}

pub fn ccc_sequence_ok(test_range: &[u32]) -> (r: bool)
    ensures
        r == spec_ccc_ok(test_range@),
{
    let mut max_ccc: u8 = 0;
    let mut i: usize = 0;
    loop
        invariant
            i <= test_range@.len(),
            spec_ccc_ok(test_range@) == spec_ccc_ok_from(test_range@, max_ccc, i as int),
        decreases test_range@.len() - i,
    {
        if i >= test_range.len() {
            return true;
        }
        let c = ccc(test_range[i]);
        if c <= max_ccc {
            return false;
        }
        max_ccc = c;
        i += 1;
    }
}

/// Writes one weight at the buffer cursor, growing the buffer when the cursor
/// is at its end, and advances the cursor.
fn emit(cea: &mut Vec<u32>, i: &mut usize, w: u32)
    requires
        *old(i) <= old(cea)@.len(),
    ensures
        *final (i) == *old(i) + 1,
        *final (i) <= final (cea)@.len(),
        final (cea)@.len() >= old(cea)@.len(),
        final (cea)@.take(*final (i) as int) == old(cea)@.take(*old(i) as int).push(w),
{
    if *i < cea.len() {
        let ghost pre = cea@;
        cea[*i] = w;
        proof {
            assert(cea@.take(*i + 1) =~= pre.take(*i as int).push(w));
        }
    } else {
        let ghost pre = cea@;
        cea.push(w);
        proof {
            assert(cea@.take(*i + 1) =~= pre.take(*i as int).push(w));
        }
    }
    assert(*i < cea.len());
    *i += 1;
}

/// Copies a weight row into the element buffer at the cursor, passing each
/// weight through the shifted transform when shifting is on.
pub fn fill_weights(
    cea: &mut Vec<u32>,
    row: &Vec<u32>,
    i: &mut usize,
    shifting: bool,
    last_variable: &mut bool,
)
    requires
        *old(i) <= old(cea)@.len(),
    ensures
        *final (i) == *old(i) + row@.len(),
        *final (i) <= final (cea)@.len(),
        final (cea)@.len() >= old(cea)@.len(),
        shifting ==> final (cea)@.take(*final (i) as int) == old(cea)@.take(*old(i) as int)
            + spec_shift_row(row@, *old(last_variable)).0,
        shifting ==> *final (last_variable) == spec_shift_row(row@, *old(last_variable)).1,
        !shifting ==> final (cea)@.take(*final (i) as int) == old(cea)@.take(*old(i) as int)
            + row@,
        !shifting ==> *final (last_variable) == *old(last_variable),
{
    let mut k: usize = 0;
    proof {
        assert(old(cea)@.take(*old(i) as int) + row@.take(0) =~= old(cea)@.take(*old(i) as int));
        assert(old(cea)@.take(*old(i) as int) + spec_shift_row(row@.take(0), *old(last_variable)).0
            =~= old(cea)@.take(*old(i) as int));
    }
    while k < row.len()
        invariant
            k <= row@.len(),
            *i == *old(i) + k,
            *i <= cea@.len(),
            cea@.len() >= old(cea)@.len(),
            shifting ==> cea@.take(*i as int) == old(cea)@.take(*old(i) as int) + spec_shift_row(
                row@.take(k as int),
                *old(last_variable),
            ).0,
            shifting ==> *last_variable == spec_shift_row(
                row@.take(k as int),
                *old(last_variable),
            ).1,
            !shifting ==> cea@.take(*i as int) == old(cea)@.take(*old(i) as int) + row@.take(
                k as int,
            ),
            !shifting ==> *last_variable == *old(last_variable),
        decreases row@.len() - k,
    {
        let w = row[k];
        if shifting {
            let shifted = shift_weights(w, last_variable);
            emit(cea, i, shifted);
        } else {
            emit(cea, i, w);
        }
        proof {
            lemma_shift_row_step(row@, k as int, *old(last_variable));
            assert(row@.take(k + 1) =~= row@.take(k as int).push(row@[k as int]));
            if shifting {
                assert((old(cea)@.take(*old(i) as int) + spec_shift_row(
                    row@.take(k as int),
                    *old(last_variable),
                ).0).push(
                    spec_shift(
                        row@[k as int],
                        spec_shift_row(row@.take(k as int), *old(last_variable)).1,
                    ).0,
                ) =~= old(cea)@.take(*old(i) as int) + spec_shift_row(
                    row@.take(k + 1),
                    *old(last_variable),
                ).0);
            } else {
                assert((old(cea)@.take(*old(i) as int) + row@.take(k as int)).push(row@[k as int])
                    =~= old(cea)@.take(*old(i) as int) + row@.take(k + 1));
            }
        }
        k += 1;
    }
    proof {
        assert(row@.take(row@.len() as int) =~= row@);
    }
}

/// Extending a shifted row by one element shifts that element under the row's
/// final variable state.
proof fn lemma_shift_row_step(row: Seq<u32>, k: int, lv: bool)
    requires
        0 <= k < row.len(),
    ensures
        ({
            let head = spec_shift_row(row.take(k), lv);
            let step = spec_shift(row[k], head.1);
            spec_shift_row(row.take(k + 1), lv) == (head.0.push(step.0), step.1)
        }),
    decreases k,
{
    if k == 0 {
        assert(row.take(1) =~= seq![row[0]]);
        assert(row.take(1).skip(1) =~= Seq::<u32>::empty());
        assert(row.take(0) =~= Seq::<u32>::empty());
        assert(spec_shift_row(Seq::<u32>::empty(), spec_shift(row[0], lv).1).0
            =~= Seq::<u32>::empty());
        assert(spec_shift_row(row.take(1), lv).0 =~= seq![spec_shift(row[0], lv).0]);
        assert(seq![spec_shift(row[0], lv).0] =~= Seq::<u32>::empty().push(
            spec_shift(row[0], lv).0,
        ));
    } else {
        lemma_shift_row_step(row.skip(1), k - 1, spec_shift(row[0], lv).1);
        assert(row.take(k + 1)[0] == row[0]);
        assert(row.take(k + 1).skip(1) =~= row.skip(1).take(k));
        assert(row.take(k).skip(1) =~= row.skip(1).take(k - 1));
        assert(row.skip(1)[k - 1] == row[k]);
        let head0 = spec_shift_row(row.skip(1).take(k - 1), spec_shift(row[0], lv).1);
        assert(spec_shift_row(row.take(k), lv).0 == seq![spec_shift(row[0], lv).0] + head0.0);
        assert(spec_shift_row(row.take(k), lv).1 == head0.1);
        let step = spec_shift(row[k], head0.1);
        assert(spec_shift_row(row.skip(1).take(k), spec_shift(row[0], lv).1) == (
        head0.0.push(step.0),
        step.1,
        ));
        assert(seq![spec_shift(row[0], lv).0] + head0.0.push(step.0) =~= (seq![
            spec_shift(row[0], lv).0,
        ] + head0.0).push(step.0));
    }
}

/// Writes one low-table weight at the cursor, shifted when shifting is on.
pub fn handle_low_weights(
    cea: &mut Vec<u32>,
    weights: u32,
    i: &mut usize,
    shifting: bool,
    last_variable: &mut bool,
)
    requires
        *old(i) <= old(cea)@.len(),
    ensures
        *final (i) == *old(i) + 1,
        *final (i) <= final (cea)@.len(),
        final (cea)@.len() >= old(cea)@.len(),
        shifting ==> final (cea)@.take(*final (i) as int) == old(cea)@.take(
            *old(i) as int,
        ).push(spec_shift(weights, *old(last_variable)).0),
        shifting ==> *final (last_variable) == spec_shift(weights, *old(last_variable)).1,
        !shifting ==> final (cea)@.take(*final (i) as int) == old(cea)@.take(
            *old(i) as int,
        ).push(weights),
        !shifting ==> *final (last_variable) == *old(last_variable),
{
    if shifting {
        let shifted = shift_weights(weights, last_variable);
        emit(cea, i, shifted);
    } else {
        emit(cea, i, weights);
    }
}

/// The first implicit weight of an untabulated code point: a primary derived
/// from the code point's block, with fixed secondary and tertiary.
pub open spec fn spec_implicit_a(cp: u32, unassigned: Seq<u32>) -> u32 {
    let aaaa: int = if unassigned.contains(cp) {
        0xFBC0 + (cp >> 15u32)
    } else if (0x3400 <= cp <= 0x4DBF) || (0x20000 <= cp <= 0x2A6DF) || (0x2A700 <= cp <= 0x2EE5D)
        || (0x30000 <= cp <= 0x323AF) {
        0xFB80 + (cp >> 15u32)
    } else if (0x4E00 <= cp <= 0x9FFF) || (0xF900 <= cp <= 0xFAFF) {
        0xFB40 + (cp >> 15u32)
    } else if (0x17000 <= cp <= 0x18AFF) || (0x18D00 <= cp <= 0x18D8F) {
        0xFB00
    } else if 0x18B00 <= cp <= 0x18CFF {
        0xFB02
    } else if 0x1B170 <= cp <= 0x1B2FF {
        0xFB01
    } else {
        0xFBC0 + (cp >> 15u32)
    };
    spec_pack(false, (aaaa % 0x10000) as u16, 32, 2)
}

/// The second implicit weight of an untabulated code point: the code point's
/// offset inside its block, marked by a high bit, as a primary.
pub open spec fn spec_implicit_b(cp: u32, unassigned: Seq<u32>) -> u32 {
    let bbbb: u32 = if unassigned.contains(cp) {
        cp & 0x7FFF
    } else if (0x17000 <= cp <= 0x18AFF) || (0x18D00 <= cp <= 0x18D8F) {
        (cp - 0x17000) as u32
    } else if 0x18B00 <= cp <= 0x18CFF {
        (cp - 0x18B00) as u32
    } else if 0x1B170 <= cp <= 0x1B2FF {
        (cp - 0x1B170) as u32
    } else {
        cp & 0x7FFF
    };
    spec_pack(false, (bbbb | 0x8000u32) as u16, 0, 0)
}

/// The first implicit weight for a code point absent from the weight tables.
pub fn implicit_a(cp: u32, unassigned: &Vec<u32>) -> (w: u32)
    ensures
        w == spec_implicit_a(cp, unassigned@),
{
    proof {
        assert(cp >> 15u32 <= 0x1FFFF) by (bit_vector);
    }
    let aaaa: u32 = if set_contains(unassigned, cp) {
        0xFBC0 + (cp >> 15)
    } else if (0x3400 <= cp && cp <= 0x4DBF) || (0x20000 <= cp && cp <= 0x2A6DF) || (0x2A700 <= cp
        && cp <= 0x2EE5D) || (0x30000 <= cp && cp <= 0x323AF) {
        0xFB80 + (cp >> 15)
    } else if (0x4E00 <= cp && cp <= 0x9FFF) || (0xF900 <= cp && cp <= 0xFAFF) {
        0xFB40 + (cp >> 15)
    } else if (0x17000 <= cp && cp <= 0x18AFF) || (0x18D00 <= cp && cp <= 0x18D8F) {
        0xFB00
    } else if 0x18B00 <= cp && cp <= 0x18CFF {
        0xFB02
    } else if 0x1B170 <= cp && cp <= 0x1B2FF {
        0xFB01
    } else {
        0xFBC0 + (cp >> 15)
    };
    let masked = aaaa & 0xFFFF;
    proof {
        assert(aaaa & 0xFFFF == aaaa % 0x10000 && aaaa & 0xFFFF < 0x10000) by (bit_vector);
    }
    pack_weights(false, masked as u16, 32, 2)
}

/// The second implicit weight for a code point absent from the weight tables.
pub fn implicit_b(cp: u32, unassigned: &Vec<u32>) -> (w: u32)
    ensures
        w == spec_implicit_b(cp, unassigned@),
{
    let bbbb: u32 = if set_contains(unassigned, cp) {
        cp & 0x7FFF
    } else if (0x17000 <= cp && cp <= 0x18AFF) || (0x18D00 <= cp && cp <= 0x18D8F) {
        cp - 0x17000
    } else if 0x18B00 <= cp && cp <= 0x18CFF {
        cp - 0x18B00
    } else if 0x1B170 <= cp && cp <= 0x1B2FF {
        cp - 0x1B170
    } else {
        cp & 0x7FFF
    };
    proof {
        assert(cp & 0x7FFF <= 0x7FFF) by (bit_vector);
        assert(bbbb <= 0x7FFF ==> (bbbb | 0x8000) <= 0xFFFF) by (bit_vector);
    }
    let marked = bbbb | 0x8000;
    pack_weights(false, marked as u16, 0, 0)
}

/// Writes the two implicit weights of a code point at the cursor. Implicit
/// weights are never variable and never primary-ignorable, and they bypass
/// the shifted transform (so they leave the variable state alone).
pub fn handle_implicit_weights(cea: &mut Vec<u32>, cp: u32, i: &mut usize, unassigned: &Vec<u32>)
    requires
        *old(i) <= old(cea)@.len(),
    ensures
        *final (i) == *old(i) + 2,
        *final (i) <= final (cea)@.len(),
        final (cea)@.len() >= old(cea)@.len(),
        final (cea)@.take(*final (i) as int) == old(cea)@.take(*old(i) as int).push(
            spec_implicit_a(cp, unassigned@),
        ).push(spec_implicit_b(cp, unassigned@)),
{
    let a = implicit_a(cp, unassigned);
    emit(cea, i, a);
    let b = implicit_b(cp, unassigned);
    emit(cea, i, b);
}

/// Ensures the element buffer keeps at least ten words of headroom past the
/// cursor, growing it with zero padding when it runs low.
pub fn grow_vec(cea: &mut Vec<u32>, i: usize)
    requires
        i <= old(cea)@.len(),
    ensures
        final (cea)@.len() >= i + 10,
        final (cea)@.len() >= old(cea)@.len(),
        final (cea)@.take(old(cea)@.len() as int) == old(cea)@,
{
    proof {
        assert(old(cea)@.take(old(cea)@.len() as int) =~= old(cea)@);
    }
    while cea.len() - i < 10
        invariant
            i <= cea@.len(),
            cea@.len() >= old(cea)@.len(),
            cea@.take(old(cea)@.len() as int) == old(cea)@,
        decreases i + 10 - cea@.len(),
    {
        cea.push(0);
        proof {
            assert(cea@.take(old(cea)@.len() as int) =~= old(cea)@);
        }
    }
}

/// The working sequence after a contraction match consumed pulled-forward
/// code points: the one at `i`, and with `try_two` also the one before it.
pub open spec fn spec_remove_pulled(s: Seq<u32>, i: int, try_two: bool) -> Seq<u32> {
    if try_two {
        s.remove(i).remove(i - 1)
    } else {
        s.remove(i)
    }
}

/// Removes the code points a contraction match pulled forward, updating the
/// tracked working length.
pub fn remove_pulled(char_vals: &mut Vec<u32>, i: usize, input_length: &mut usize, try_two: bool)
    requires
        i < old(char_vals)@.len(),
        try_two ==> i >= 1,
        *old(input_length) == old(char_vals)@.len(),
    ensures
        final (char_vals)@ == spec_remove_pulled(old(char_vals)@, i as int, try_two),
        *final (input_length) == final (char_vals)@.len(),
{
    char_vals.remove(i);
    *input_length -= 1;
    if try_two {
        char_vals.remove(i - 1);
        *input_length -= 1;
    }
}

} // verus!
