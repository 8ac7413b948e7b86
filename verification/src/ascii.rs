//! The ASCII fast path: before the full algorithm runs, both inputs are
//! walked in lock-step while they stay ASCII alphanumeric, comparing
//! case-folded values. A genuine folded difference decides immediately; a
//! case-only difference is remembered as a pending tie-break; full
//! consumption decides by length first, then by the pending tie-break (which
//! counts only when the tie-break mode is on).

use core::cmp::Ordering;
use crate::order::{cmp_int, cmp_u32, cmp_usize};
use vstd::prelude::*;

verus! {

/// ASCII digits and letters: the code points the fast path may consume.
pub open spec fn ascii_alnum(c: u32) -> bool {
    &&& 0x30 <= c <= 0x7A
    &&& !(0x3A <= c <= 0x40)
    &&& !(0x5B <= c <= 0x60)
}

fn ascii_alphanumeric(c: u32) -> (r: bool)
    ensures
        r == ascii_alnum(c),
{
    (0x30 <= c && c <= 0x7A) && !(0x3A <= c && c <= 0x40) && !(0x5B <= c && c <= 0x60)
}

/// Case folding on ASCII alphanumerics: lowercase letters are mapped onto
/// uppercase, digits and uppercase stay.
pub open spec fn fold_case(c: u32) -> u32 {
    if c > 0x5A {
        (c - 0x20) as u32
    } else {
        c
    }
}

fn fold(c: u32) -> (r: u32)
    ensures
        r == fold_case(c),
{
    if c > 0x5A {
        c - 0x20
    } else {
        c
    }
}

/// What the walk returns once it stops at an end of input: a length
/// difference wins, else the pending case tie-break (decisive only when the
/// tie-break mode is on; a case-only difference otherwise ties), else nothing
/// was decided.
pub open spec fn spec_fast_end(
    la: int,
    lb: int,
    backup: Option<Ordering>,
    tiebreak: bool,
) -> Option<Ordering> {
    if la != lb {
        Some(cmp_int(la, lb))
    } else if backup is Some {
        if tiebreak {
            backup
        } else {
            Some(Ordering::Equal)
        }
    } else {
        None
    }
}

/// The lock-step walk from position `i` on, carrying the pending case
/// tie-break. `None` means the fast path abstains and the full algorithm must
/// run.
pub open spec fn spec_fast_at(
    a: Seq<u32>,
    b: Seq<u32>,
    i: int,
    backup: Option<Ordering>,
    tiebreak: bool,
) -> Option<Ordering>
    recommends
        0 <= i <= a.len(),
        i <= b.len(),
    decreases a.len() - i,
{
    if i < 0 || i >= a.len() {
        spec_fast_end(a.len() as int, b.len() as int, backup, tiebreak)
    } else if !ascii_alnum(a[i]) {
        None
    } else if i >= b.len() {
        spec_fast_end(a.len() as int, b.len() as int, backup, tiebreak)
    } else if !ascii_alnum(b[i]) {
        None
    } else if a[i] == b[i] {
        spec_fast_at(a, b, i + 1, backup, tiebreak)
    } else if fold_case(a[i]) == fold_case(b[i]) {
        spec_fast_at(
            a,
            b,
            i + 1,
            if backup is None {
                Some(cmp_int(b[i] as int, a[i] as int))
            } else {
                backup
            },
            tiebreak,
        )
    } else {
        Some(cmp_int(fold_case(a[i]) as int, fold_case(b[i]) as int))
    }
}

/// What the ASCII fast path decides about two inputs, if anything.
pub open spec fn spec_fast(a: Seq<u32>, b: Seq<u32>, tiebreak: bool) -> Option<Ordering> {
    spec_fast_at(a, b, 0, None, tiebreak)
}

/// Appends the whole input to a scratch buffer.
pub fn fill(src: &[u32], chars: &mut Vec<u32>)
    ensures
        final (chars)@ == old(chars)@ + src@,
{
    let mut i: usize = 0;
    while i < src.len()
        invariant
            i <= src@.len(),
            chars@ == old(chars)@ + src@.take(i as int),
        decreases src@.len() - i,
    {
        chars.push(src[i]);
        proof {
            assert(src@.take(i + 1) =~= src@.take(i as int).push(src@[i as int]));
        }
        i += 1;
    }
    proof {
        assert(src@.take(src@.len() as int) =~= src@);
    }
}

/// Fills both scratch buffers with the full inputs and runs the fast path
/// walk over them.
pub fn fill_and_check(
    a: &[u32],
    b: &[u32],
    a_chars: &mut Vec<u32>,
    b_chars: &mut Vec<u32>,
    tiebreak: bool,
) -> (r: Option<Ordering>)
    ensures
        final (a_chars)@ == old(a_chars)@ + a@,
        final (b_chars)@ == old(b_chars)@ + b@,
        r == spec_fast(a@, b@, tiebreak),
{
    fill(a, a_chars);
    fill(b, b_chars);
    let mut i: usize = 0;
    let mut backup: Option<Ordering> = None;
    loop
        invariant
            i <= a@.len(),
            i <= b@.len(),
            a_chars@ == old(a_chars)@ + a@,
            b_chars@ == old(b_chars)@ + b@,
            spec_fast(a@, b@, tiebreak) == spec_fast_at(a@, b@, i as int, backup, tiebreak),
        ensures
            spec_fast(a@, b@, tiebreak) == spec_fast_end(
                a@.len() as int,
                b@.len() as int,
                backup,
                tiebreak,
            ),
        decreases a@.len() - i,
    {
        if i >= a.len() {
            break ;
        }
        if !ascii_alphanumeric(a[i]) {
            return None;
        }
        if i >= b.len() {
            break ;
        }
        if !ascii_alphanumeric(b[i]) {
            return None;
        }
        if a[i] != b[i] {
            let af = fold(a[i]);
            let bf = fold(b[i]);
            if af == bf {
                if backup.is_none() {
                    backup = Some(cmp_u32(b[i], a[i]));
                }
            } else {
                return Some(cmp_u32(af, bf));
            }
        }
        i += 1;
    }
    if a.len() != b.len() {
        Some(cmp_usize(a.len(), b.len()))
    } else if backup.is_some() {
        if tiebreak {
            backup
        } else {
            Some(Ordering::Equal)
        }
    } else {
        None
    }
}

} // verus!
