//! Ordering helpers: three-way comparison of integers and plain lexicographic
//! comparison of code-point sequences (a proper prefix sorts first), with the
//! order laws the collation laws build on.

use core::cmp::Ordering;
use vstd::prelude::*;

verus! {

/// Three-way comparison of two integers.
pub open spec fn cmp_int(a: int, b: int) -> Ordering {
    if a < b {
        Ordering::Less
    } else if a == b {
        Ordering::Equal
    } else {
        Ordering::Greater
    }
}

/// The opposite comparison result.
pub open spec fn reverse(o: Ordering) -> Ordering {
    match o {
        Ordering::Less => Ordering::Greater,
        Ordering::Equal => Ordering::Equal,
        Ordering::Greater => Ordering::Less,
    }
}

/// Lexicographic comparison of code-point sequences; a proper prefix sorts
/// before its extensions.
pub open spec fn lex_cmp_u32(a: Seq<u32>, b: Seq<u32>) -> Ordering
    decreases a.len(),
{
    if a.len() == 0 && b.len() == 0 {
        Ordering::Equal
    } else if a.len() == 0 {
        Ordering::Less
    } else if b.len() == 0 {
        Ordering::Greater
    } else if a[0] != b[0] {
        cmp_int(a[0] as int, b[0] as int)
    } else {
        lex_cmp_u32(a.skip(1), b.skip(1))
    }
}

pub fn cmp_u32(a: u32, b: u32) -> (r: Ordering)
    ensures
        r == cmp_int(a as int, b as int),
{
    if a < b {
        Ordering::Less
    } else if a == b {
        Ordering::Equal
    } else {
        Ordering::Greater
    }
}

pub fn cmp_u16(a: u16, b: u16) -> (r: Ordering)
    ensures
        r == cmp_int(a as int, b as int),
{
    if a < b {
        Ordering::Less
    } else if a == b {
        Ordering::Equal
    } else {
        Ordering::Greater
    }
}

pub fn cmp_usize(a: usize, b: usize) -> (r: Ordering)
    ensures
        r == cmp_int(a as int, b as int),
{
    if a < b {
        Ordering::Less
    } else if a == b {
        Ordering::Equal
    } else {
        Ordering::Greater
    }
}

/// Lexicographic comparison of two code-point slices.
pub fn lex_compare_u32(a: &[u32], b: &[u32]) -> (r: Ordering)
    ensures
        r == lex_cmp_u32(a@, b@),
{
    let mut i: usize = 0;
    proof {
        assert(a@.skip(0) =~= a@);
        assert(b@.skip(0) =~= b@);
    }
    loop
        invariant
            i <= a@.len(),
            i <= b@.len(),
            lex_cmp_u32(a@, b@) == lex_cmp_u32(a@.skip(i as int), b@.skip(i as int)),
            forall|k: int| 0 <= k < i ==> a@[k] == b@[k],
        decreases a@.len() - i,
    {
        if i == a.len() && i == b.len() {
            return Ordering::Equal;
        }
        if i == a.len() {
            return Ordering::Less;
        }
        if i == b.len() {
            return Ordering::Greater;
        }
        if a[i] != b[i] {
            return cmp_u32(a[i], b[i]);
        }
        proof {
            assert(a@.skip(i as int).skip(1) =~= a@.skip(i + 1));
            assert(b@.skip(i as int).skip(1) =~= b@.skip(i + 1));
        }
        i += 1;
    }
}

/// Lexicographic comparison of key-unit sequences; a proper prefix sorts
/// before its extensions.
pub open spec fn lex_cmp_u16(a: Seq<u16>, b: Seq<u16>) -> Ordering
    decreases a.len(),
{
    if a.len() == 0 && b.len() == 0 {
        Ordering::Equal
    } else if a.len() == 0 {
        Ordering::Less
    } else if b.len() == 0 {
        Ordering::Greater
    } else if a[0] != b[0] {
        cmp_int(a[0] as int, b[0] as int)
    } else {
        lex_cmp_u16(a.skip(1), b.skip(1))
    }
}

/// Lexicographic comparison of byte sequences; a proper prefix sorts before
/// its extensions.
pub open spec fn lex_cmp_u8(a: Seq<u8>, b: Seq<u8>) -> Ordering
    decreases a.len(),
{
    if a.len() == 0 && b.len() == 0 {
        Ordering::Equal
    } else if a.len() == 0 {
        Ordering::Less
    } else if b.len() == 0 {
        Ordering::Greater
    } else if a[0] != b[0] {
        cmp_int(a[0] as int, b[0] as int)
    } else {
        lex_cmp_u8(a.skip(1), b.skip(1))
    }
}

/// Whether two code-point slices hold the same sequence.
pub fn slices_equal(a: &[u32], b: &[u32]) -> (r: bool)
    ensures
        r == (a@ == b@),
{
    if a.len() != b.len() {
        return false;
    }
    let mut i: usize = 0;
    while i < a.len()
        invariant
            i <= a@.len(),
            a@.len() == b@.len(),
            forall|k: int| 0 <= k < i ==> a@[k] == b@[k],
        decreases a@.len() - i,
    {
        if a[i] != b[i] {
            return false;
        }
        i += 1;
    }
    proof {
        assert(a@ =~= b@);
    }
    true
}

/// Lexicographic comparison is reflexive: a sequence ties with itself.
pub proof fn lemma_lex_cmp_u32_refl(a: Seq<u32>)
    ensures
        lex_cmp_u32(a, a) == Ordering::Equal,
    decreases a.len(),
{
    if a.len() > 0 {
        lemma_lex_cmp_u32_refl(a.skip(1));
    }
}

/// Lexicographic comparison only ties on equal sequences.
pub proof fn lemma_lex_cmp_u32_eq(a: Seq<u32>, b: Seq<u32>)
    requires
        lex_cmp_u32(a, b) == Ordering::Equal,
    ensures
        a == b,
    decreases a.len(),
{
    if a.len() == 0 && b.len() == 0 {
        assert(a =~= b);
    } else {
        lemma_lex_cmp_u32_eq(a.skip(1), b.skip(1));
        assert(a =~= seq![a[0]] + a.skip(1));
        assert(b =~= seq![b[0]] + b.skip(1));
    }
}

/// Swapping the operands of a lexicographic comparison reverses the result.
pub proof fn lemma_lex_cmp_u32_antisym(a: Seq<u32>, b: Seq<u32>)
    ensures
        lex_cmp_u32(a, b) == reverse(lex_cmp_u32(b, a)),
    decreases a.len(),
{
    if a.len() > 0 && b.len() > 0 && a[0] == b[0] {
        lemma_lex_cmp_u32_antisym(a.skip(1), b.skip(1));
    }
}

/// Lexicographic comparison is transitive.
pub proof fn lemma_lex_cmp_u32_trans(a: Seq<u32>, b: Seq<u32>, c: Seq<u32>)
    requires
        lex_cmp_u32(a, b) == Ordering::Less,
        lex_cmp_u32(b, c) == Ordering::Less,
    ensures
        lex_cmp_u32(a, c) == Ordering::Less,
    decreases a.len(),
{
    if a.len() > 0 && b.len() > 0 && c.len() > 0 && a[0] == b[0] && b[0] == c[0] {
        lemma_lex_cmp_u32_trans(a.skip(1), b.skip(1), c.skip(1));
    }
}

} // verus!
