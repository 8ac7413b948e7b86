//! The order laws of the collation engine, stated over the specification
//! functions that the executable functions' contracts pin their results to.

use core::cmp::Ordering;
use crate::ascii::{ascii_alnum, fold_case, spec_fast, spec_fast_at};
use crate::collate::spec_collate;
use crate::first_weight::spec_try_initial;
use crate::normalize::spec_nfd;
use crate::order::{
    cmp_int, lemma_lex_cmp_u32_antisym, lemma_lex_cmp_u32_eq, lemma_lex_cmp_u32_refl,
    lemma_lex_cmp_u32_trans, lex_cmp_u32, reverse,
};
use crate::prefix::{
    droppable, lemma_find_prefix_bound, spec_find_prefix, spec_trim,
};
use crate::sort_key::{
    lemma_spec_cmp_antisym, level_keep, level_val, proj, spec_cmp, sproj, wcmp, Level,
};
use crate::order::{lex_cmp_u16, lex_cmp_u8};
use crate::xfrm::{bytes_of, key_units, spec_sortkey, trim_zeros, unit_hi, unit_lo};
use crate::tables::TablesView;
use vstd::prelude::*;

verus! {

/// The opposite comparison result, through an optional value.
pub open spec fn rev_opt(o: Option<Ordering>) -> Option<Ordering> {
    match o {
        None => None,
        Some(x) => Some(reverse(x)),
    }
}

/// Reflexivity: a sequence collates equal to itself, under every
/// configuration and data set.
pub proof fn lemma_collate_reflexive(
    s: Seq<u32>,
    cldr: bool,
    shifting: bool,
    tiebreak: bool,
    tv: TablesView,
)
    ensures
        spec_collate(s, s, cldr, shifting, tiebreak, tv) == Ordering::Equal,
{
}

/// The fast-path walk is antisymmetric wherever it is decisive in both
/// directions, for mirrored pending tie-breaks.
proof fn lemma_fast_at_antisym(
    a: Seq<u32>,
    b: Seq<u32>,
    i: int,
    bk1: Option<Ordering>,
    bk2: Option<Ordering>,
    tiebreak: bool,
)
    requires
        0 <= i <= a.len(),
        i <= b.len(),
        bk2 == rev_opt(bk1),
        (spec_fast_at(a, b, i, bk1, tiebreak) is Some) <==> (spec_fast_at(
            b,
            a,
            i,
            bk2,
            tiebreak,
        ) is Some),
    ensures
        spec_fast_at(b, a, i, bk2, tiebreak) == rev_opt(spec_fast_at(a, b, i, bk1, tiebreak)),
    decreases a.len() - i,
{
    if i >= a.len() {
        if i >= b.len() {
        } else {
            // `a` ran out first; the mirrored walk is decisive only when
            // b[i] is still alphanumeric, and then decides by length.
        }
    } else if !ascii_alnum(a[i]) {
    } else if i >= b.len() {
    } else if !ascii_alnum(b[i]) {
    } else if a[i] == b[i] {
        lemma_fast_at_antisym(a, b, i + 1, bk1, bk2, tiebreak);
    } else if fold_case(a[i]) == fold_case(b[i]) {
        let bk1n = if bk1 is None {
            Some(cmp_int(b[i] as int, a[i] as int))
        } else {
            bk1
        };
        let bk2n = if bk2 is None {
            Some(cmp_int(a[i] as int, b[i] as int))
        } else {
            bk2
        };
        assert(bk2n == rev_opt(bk1n));
        lemma_fast_at_antisym(a, b, i + 1, bk1n, bk2n, tiebreak);
    } else {
    }
}

/// The droppable prefix of two sequences does not depend on their order.
proof fn lemma_find_prefix_sym(a: Seq<u32>, b: Seq<u32>, tv: TablesView)
    ensures
        spec_find_prefix(a, b, tv) == spec_find_prefix(b, a, tv),
    decreases a.len(),
{
    if droppable(a, b, tv) {
        lemma_find_prefix_sym(a.skip(1), b.skip(1), tv);
    }
}

/// Prefix elimination treats the two sequences alike: swapping the inputs
/// swaps the outputs.
proof fn lemma_trim_antisym(a: Seq<u32>, b: Seq<u32>, shifting: bool, tv: TablesView)
    ensures
        spec_trim(b, a, shifting, tv).0 == spec_trim(a, b, shifting, tv).1,
        spec_trim(b, a, shifting, tv).1 == spec_trim(a, b, shifting, tv).0,
{
    lemma_find_prefix_sym(a, b, tv);
    lemma_find_prefix_bound(a, b, tv);
    lemma_find_prefix_bound(b, a, tv);
    let p = spec_find_prefix(a, b, tv);
    if p > 0 {
        assert(a[p - 1] == b[p - 1]);
        if p > 1 {
            assert(a[p - 2] == b[p - 2]);
        }
    }
}

/// The first-weight early exit is antisymmetric: it decides in one direction
/// exactly when it decides in the other, and then oppositely.
proof fn lemma_try_initial_antisym(a: Seq<u32>, b: Seq<u32>, shifting: bool, tv: TablesView)
    ensures
        spec_try_initial(b, a, shifting, tv) == rev_opt(spec_try_initial(a, b, shifting, tv)),
{
}

/// Antisymmetry: swapping the two inputs reverses the comparison, wherever
/// the ASCII fast path is decisive for both input orders or for neither.
pub proof fn lemma_collate_antisymmetric(
    a: Seq<u32>,
    b: Seq<u32>,
    cldr: bool,
    shifting: bool,
    tiebreak: bool,
    tv: TablesView,
)
    requires
        (spec_fast(a, b, tiebreak) is Some) <==> (spec_fast(b, a, tiebreak) is Some),
    ensures
        spec_collate(a, b, cldr, shifting, tiebreak, tv) == reverse(
            spec_collate(b, a, cldr, shifting, tiebreak, tv),
        ),
{
    if a == b {
    } else {
        lemma_fast_at_antisym(a, b, 0, None, None, tiebreak);
        match spec_fast(a, b, tiebreak) {
            Some(o) => {},
            None => {
                let an = spec_nfd(a, tv.decomp);
                let bn = spec_nfd(b, tv.decomp);
                lemma_lex_cmp_u32_antisym(a, b);
                if an == bn {
                } else {
                    lemma_trim_antisym(an, bn, shifting, tv);
                    let trimmed = spec_trim(an, bn, shifting, tv);
                    if trimmed.0.len() == 0 || trimmed.1.len() == 0 {
                        lemma_lex_cmp_u32_antisym(trimmed.0, trimmed.1);
                    } else {
                        lemma_try_initial_antisym(trimmed.0, trimmed.1, shifting, tv);
                        match spec_try_initial(trimmed.0, trimmed.1, shifting, tv) {
                            Some(o) => {},
                            None => {
                                lemma_spec_cmp_antisym(
                                    crate::cea::spec_cea(trimmed.0, shifting, cldr, tv),
                                    crate::cea::spec_cea(trimmed.1, shifting, cldr, tv),
                                    shifting,
                                );
                            },
                        }
                    }
                }
            },
        }
    }
}

/// The head of a projection read with zero padding.
pub open spec fn phead(s: Seq<u16>) -> u16 {
    if s.len() > 0 {
        s[0]
    } else {
        0
    }
}

/// The tail of a projection (an empty projection stays empty).
pub open spec fn ptail(s: Seq<u16>) -> Seq<u16> {
    if s.len() > 0 {
        s.skip(1)
    } else {
        s
    }
}

/// Lock-step comparison of two unit sequences under zero padding, walking on
/// through equal zeros: the order that trailing-zero removal cannot change.
pub open spec fn pcmp(x: Seq<u16>, y: Seq<u16>) -> Ordering
    decreases x.len() + y.len(),
{
    if x.len() == 0 && y.len() == 0 {
        Ordering::Equal
    } else if phead(x) != phead(y) {
        cmp_int(phead(x) as int, phead(y) as int)
    } else {
        pcmp(ptail(x), ptail(y))
    }
}

/// Whether every unit of a sequence is zero.
pub open spec fn all_zero(s: Seq<u16>) -> bool {
    forall|k: int| 0 <= k < s.len() ==> s[k] == 0
}

/// Whether no unit of a sequence is zero.
pub open spec fn zero_free(s: Seq<u16>) -> bool {
    forall|k: int| 0 <= k < s.len() ==> s[k] != 0
}

/// Trailing-zero removal keeps a prefix: what it keeps, it keeps in place,
/// and it keeps nothing exactly of an all-zero sequence.
proof fn lemma_trim_take(s: Seq<u16>)
    ensures
        trim_zeros(s).len() <= s.len(),
        trim_zeros(s) == s.take(trim_zeros(s).len() as int),
        (trim_zeros(s).len() == 0) <==> all_zero(s),
    decreases s.len(),
{
    if s.len() == 0 {
        assert(trim_zeros(s) =~= s.take(0));
    } else if s.last() == 0 {
        lemma_trim_take(s.drop_last());
        let l = trim_zeros(s.drop_last()).len() as int;
        assert(s.drop_last().take(l) =~= s.take(l));
        if trim_zeros(s).len() == 0 {
            assert forall|k: int| 0 <= k < s.len() implies s[k] == 0 by {
                if k < s.len() - 1 {
                    assert(s.drop_last()[k] == 0);
                }
            }
        }
        if all_zero(s) {
            assert(all_zero(s.drop_last()));
        }
    } else {
        assert(trim_zeros(s) =~= s.take(s.len() as int));
        assert(s[s.len() - 1] != 0);
    }
}

/// Trailing-zero removal commutes with splitting off a head that survives it.
proof fn lemma_trim_cons(s: Seq<u16>)
    requires
        s.len() > 0,
        s[0] != 0 || !all_zero(s.skip(1)),
    ensures
        trim_zeros(s) == seq![s[0]] + trim_zeros(s.skip(1)),
    decreases s.len(),
{
    if s.len() == 1 {
        assert(s.skip(1) =~= Seq::<u16>::empty());
        assert(all_zero(s.skip(1)));
        assert(s[0] != 0);
        assert(s.last() == s[0]);
        assert(trim_zeros(s) == s);
        assert(s =~= seq![s[0]] + trim_zeros(s.skip(1)));
    } else {
        let dl = s.drop_last();
        assert(s.skip(1).drop_last() =~= dl.skip(1));
        if s.last() == 0 {
            assert(s.skip(1).last() == s.last());
            if s[0] == 0 {
                let k = choose|k: int| 0 <= k < s.skip(1).len() && s.skip(1)[k] != 0;
                assert(k < s.skip(1).len() - 1);
                assert(dl.skip(1)[k] != 0);
                assert(!all_zero(dl.skip(1)));
            }
            lemma_trim_cons(dl);
            assert(trim_zeros(s.skip(1)) == trim_zeros(dl.skip(1)));
        } else {
            assert(trim_zeros(s) == s);
            assert(s.skip(1).last() == s.last());
            assert(trim_zeros(s.skip(1)) == s.skip(1));
            assert(s =~= seq![s[0]] + s.skip(1));
        }
    }
}

/// Removing trailing zeros turns the padded comparison into the plain
/// lexicographic one.
proof fn lemma_pcmp_lex_trim(x: Seq<u16>, y: Seq<u16>)
    ensures
        lex_cmp_u16(trim_zeros(x), trim_zeros(y)) == pcmp(x, y),
    decreases x.len() + y.len(),
{
    lemma_trim_take(x);
    lemma_trim_take(y);
    if x.len() == 0 && y.len() == 0 {
    } else if phead(x) != phead(y) {
        if phead(x) == 0 {
            assert(y.len() > 0 && y[0] != 0);
            lemma_trim_cons(y);
            if all_zero(x) {
            } else {
                assert(trim_zeros(x)[0] == x[0]);
            }
        } else if phead(y) == 0 {
            assert(x.len() > 0 && x[0] != 0);
            lemma_trim_cons(x);
            if all_zero(y) {
            } else {
                assert(trim_zeros(y)[0] == y[0]);
            }
        } else {
            lemma_trim_cons(x);
            lemma_trim_cons(y);
        }
    } else {
        lemma_pcmp_lex_trim(ptail(x), ptail(y));
        if phead(x) != 0 {
            lemma_trim_cons(x);
            lemma_trim_cons(y);
            assert((seq![x[0]] + trim_zeros(x.skip(1))).skip(1) =~= trim_zeros(x.skip(1)));
            assert((seq![y[0]] + trim_zeros(y.skip(1))).skip(1) =~= trim_zeros(y.skip(1)));
        } else {
            if x.len() > 0 && !all_zero(x) {
                let k = choose|k: int| 0 <= k < x.len() && x[k] != 0;
                assert(k > 0);
                assert(x.skip(1)[k - 1] != 0);
                lemma_trim_cons(x);
            }
            if y.len() > 0 && !all_zero(y) {
                let k = choose|k: int| 0 <= k < y.len() && y[k] != 0;
                assert(k > 0);
                assert(y.skip(1)[k - 1] != 0);
                lemma_trim_cons(y);
            }
            lemma_trim_take(ptail(x));
            lemma_trim_take(ptail(y));
            if x.len() > 0 && all_zero(x) {
                assert(all_zero(ptail(x)));
            }
            if y.len() > 0 && all_zero(y) {
                assert(all_zero(ptail(y)));
            }
            if x.len() == 0 {
                assert(ptail(x) == x);
            }
            if y.len() == 0 {
                assert(ptail(y) == y);
            }
            assert((x.len() > 0 && !all_zero(x)) ==> trim_zeros(x) =~= seq![x[0]] + trim_zeros(
                x.skip(1),
            ));
            assert((y.len() > 0 && !all_zero(y)) ==> trim_zeros(y) =~= seq![y[0]] + trim_zeros(
                y.skip(1),
            ));
            if (x.len() == 0 || all_zero(x)) {
                if (y.len() == 0 || all_zero(y)) {
                } else {
                    assert((seq![y[0]] + trim_zeros(y.skip(1))).len() > 0);
                }
            } else {
                if (y.len() == 0 || all_zero(y)) {
                    assert((seq![x[0]] + trim_zeros(x.skip(1))).len() > 0);
                } else {
                    assert((seq![x[0]] + trim_zeros(x.skip(1))).skip(1) =~= trim_zeros(x.skip(1)));
                    assert((seq![y[0]] + trim_zeros(y.skip(1))).skip(1) =~= trim_zeros(y.skip(1)));
                }
            }
        }
    }
}

/// On zero-free sequences the padded comparison is the level comparison.
proof fn lemma_pcmp_wcmp(x: Seq<u16>, y: Seq<u16>)
    requires
        zero_free(x),
        zero_free(y),
    ensures
        pcmp(x, y) == wcmp(x, y),
    decreases x.len() + y.len(),
{
    if x.len() == 0 && y.len() == 0 {
    } else if phead(x) != phead(y) {
    } else if phead(x) == 0 {
        assert(x.len() == 0 && y.len() == 0);
    } else {
        assert(forall|k: int| 0 <= k < x.skip(1).len() ==> x.skip(1)[k] == x[k + 1]);
        assert(forall|k: int| 0 <= k < y.skip(1).len() ==> y.skip(1)[k] == y[k + 1]);
        lemma_pcmp_wcmp(x.skip(1), y.skip(1));
    }
}

/// The padded comparison of two level-separated serializations decides on the
/// first level, and past the separator on what follows.
proof fn lemma_pcmp_sep(p1: Seq<u16>, r1: Seq<u16>, p2: Seq<u16>, r2: Seq<u16>)
    requires
        zero_free(p1),
        zero_free(p2),
    ensures
        pcmp(p1 + seq![0u16] + r1, p2 + seq![0u16] + r2) == (if wcmp(p1, p2) != Ordering::Equal {
            wcmp(p1, p2)
        } else {
            pcmp(r1, r2)
        }),
    decreases p1.len() + p2.len(),
{
    let xx = p1 + seq![0u16] + r1;
    let yy = p2 + seq![0u16] + r2;
    assert(xx.len() > 0);
    assert(yy.len() > 0);
    if p1.len() == 0 && p2.len() == 0 {
        assert(xx[0] == 0);
        assert(yy[0] == 0);
        assert(ptail(xx) =~= r1);
        assert(ptail(yy) =~= r2);
    } else if p1.len() == 0 {
        assert(xx[0] == 0);
        assert(yy[0] == p2[0]);
        assert(p2[0] != 0);
    } else if p2.len() == 0 {
        assert(xx[0] == p1[0]);
        assert(yy[0] == 0);
        assert(p1[0] != 0);
    } else {
        assert(xx[0] == p1[0]);
        assert(yy[0] == p2[0]);
        if p1[0] == p2[0] {
            assert(forall|k: int| 0 <= k < p1.skip(1).len() ==> p1.skip(1)[k] == p1[k + 1]);
            assert(forall|k: int| 0 <= k < p2.skip(1).len() ==> p2.skip(1)[k] == p2[k + 1]);
            lemma_pcmp_sep(p1.skip(1), r1, p2.skip(1), r2);
            assert(ptail(xx) =~= p1.skip(1) + seq![0u16] + r1);
            assert(ptail(yy) =~= p2.skip(1) + seq![0u16] + r2);
        }
    }
}

/// Level projections are zero-free.
proof fn lemma_sproj_zero_free(s: Seq<u32>, i: int, l: Level)
    ensures
        zero_free(sproj(s, i, l)),
    decreases s.len() - i,
{
    if i < 0 || i >= s.len() || s[i] == u32::MAX {
    } else {
        lemma_sproj_zero_free(s, i + 1, l);
        if level_keep(s[i], l) && level_val(s[i], l) != 0 {
            let rest = sproj(s, i + 1, l);
            assert forall|k: int|
                0 <= k < (seq![level_val(s[i], l)] + rest).len() implies (seq![
                level_val(s[i], l),
            ] + rest)[k] != 0 by {
                if k > 0 {
                    assert(rest[k - 1] != 0);
                }
            }
        }
    }
}

/// Sort-key monotonicity at the comparator: plain lexicographic comparison of
/// two serialized, zero-trimmed keys returns exactly the multi-level
/// comparator's verdict on the two weight streams, for the same shifting
/// mode.
pub proof fn lemma_sortkey_agrees(x: Seq<u32>, y: Seq<u32>, shifting: bool)
    ensures
        lex_cmp_u16(trim_zeros(key_units(x, shifting)), trim_zeros(key_units(y, shifting)))
            == spec_cmp(x, y, shifting),
{
    lemma_pcmp_lex_trim(key_units(x, shifting), key_units(y, shifting));
    lemma_sproj_zero_free(x, 0, Level::Primary);
    lemma_sproj_zero_free(x, 0, Level::PrimaryShifted);
    lemma_sproj_zero_free(x, 0, Level::Secondary);
    lemma_sproj_zero_free(x, 0, Level::Tertiary);
    lemma_sproj_zero_free(x, 0, Level::Quaternary);
    lemma_sproj_zero_free(y, 0, Level::Primary);
    lemma_sproj_zero_free(y, 0, Level::PrimaryShifted);
    lemma_sproj_zero_free(y, 0, Level::Secondary);
    lemma_sproj_zero_free(y, 0, Level::Tertiary);
    lemma_sproj_zero_free(y, 0, Level::Quaternary);
    if shifting {
        let p1 = proj(x, Level::PrimaryShifted);
        let s1 = proj(x, Level::Secondary);
        let t1 = proj(x, Level::Tertiary);
        let q1 = proj(x, Level::Quaternary);
        let p2 = proj(y, Level::PrimaryShifted);
        let s2 = proj(y, Level::Secondary);
        let t2 = proj(y, Level::Tertiary);
        let q2 = proj(y, Level::Quaternary);
        assert(key_units(x, shifting) =~= p1 + seq![0u16] + (s1 + seq![0u16] + (t1 + seq![0u16]
            + q1)));
        assert(key_units(y, shifting) =~= p2 + seq![0u16] + (s2 + seq![0u16] + (t2 + seq![0u16]
            + q2)));
        lemma_pcmp_sep(p1, s1 + seq![0u16] + (t1 + seq![0u16] + q1), p2, s2 + seq![0u16] + (t2
            + seq![0u16] + q2));
        lemma_pcmp_sep(s1, t1 + seq![0u16] + q1, s2, t2 + seq![0u16] + q2);
        lemma_pcmp_sep(t1, q1, t2, q2);
        lemma_pcmp_wcmp(q1, q2);
    } else {
        let p1 = proj(x, Level::Primary);
        let s1 = proj(x, Level::Secondary);
        let t1 = proj(x, Level::Tertiary);
        let p2 = proj(y, Level::Primary);
        let s2 = proj(y, Level::Secondary);
        let t2 = proj(y, Level::Tertiary);
        assert(key_units(x, shifting) =~= p1 + seq![0u16] + (s1 + seq![0u16] + t1));
        assert(key_units(y, shifting) =~= p2 + seq![0u16] + (s2 + seq![0u16] + t2));
        lemma_pcmp_sep(p1, s1 + seq![0u16] + t1, p2, s2 + seq![0u16] + t2);
        lemma_pcmp_sep(s1, t1, s2, t2);
        lemma_pcmp_wcmp(t1, t2);
    }
}

/// A unit sequence decomposes bytewise at its head.
proof fn lemma_bytes_cons(s: Seq<u16>)
    requires
        s.len() > 0,
    ensures
        bytes_of(s) == seq![unit_hi(s[0]), unit_lo(s[0])] + bytes_of(s.skip(1)),
    decreases s.len(),
{
    if s.len() == 1 {
        assert(s.drop_last() =~= Seq::<u16>::empty());
        assert(s.skip(1) =~= Seq::<u16>::empty());
        assert(bytes_of(s) =~= seq![unit_hi(s[0]), unit_lo(s[0])] + bytes_of(s.skip(1)));
    } else {
        lemma_bytes_cons(s.drop_last());
        assert(s.skip(1).drop_last() =~= s.drop_last().skip(1));
        assert(s.skip(1).last() == s.last());
        assert(bytes_of(s.skip(1)) == bytes_of(s.drop_last().skip(1)) + seq![
            unit_hi(s.last()),
            unit_lo(s.last()),
        ]);
        assert((seq![unit_hi(s[0]), unit_lo(s[0])] + bytes_of(s.drop_last().skip(1))) + seq![
            unit_hi(s.last()),
            unit_lo(s.last()),
        ] =~= seq![unit_hi(s[0]), unit_lo(s[0])] + (bytes_of(s.drop_last().skip(1)) + seq![
            unit_hi(s.last()),
            unit_lo(s.last()),
        ]));
    }
}

/// Big-endian byte pairs compare as the units they encode.
proof fn lemma_bytes_lex(x: Seq<u16>, y: Seq<u16>)
    ensures
        lex_cmp_u8(bytes_of(x), bytes_of(y)) == lex_cmp_u16(x, y),
    decreases x.len() + y.len(),
{
    if x.len() == 0 && y.len() == 0 {
        assert(lex_cmp_u8(bytes_of(x), bytes_of(y)) == lex_cmp_u16(x, y));
    } else if x.len() == 0 {
        lemma_bytes_cons(y);
        assert(bytes_of(x).len() == 0);
        assert(bytes_of(y).len() >= 2);
        assert(lex_cmp_u8(bytes_of(x), bytes_of(y)) == lex_cmp_u16(x, y));
    } else if y.len() == 0 {
        lemma_bytes_cons(x);
        assert(bytes_of(y).len() == 0);
        assert(bytes_of(x).len() >= 2);
        assert(lex_cmp_u8(bytes_of(x), bytes_of(y)) == lex_cmp_u16(x, y));
    } else {
        lemma_bytes_cons(x);
        lemma_bytes_cons(y);
        let va = x[0];
        let vb = y[0];
        assert((va >> 8 == vb >> 8 && va & 0xFF == vb & 0xFF) ==> va == vb) by (bit_vector);
        assert(va >> 8 < vb >> 8 ==> va < vb) by (bit_vector);
        assert(va >> 8 > vb >> 8 ==> va > vb) by (bit_vector);
        assert((va >> 8 == vb >> 8 && va & 0xFF < vb & 0xFF) ==> va < vb) by (bit_vector);
        assert((va >> 8 == vb >> 8 && va & 0xFF > vb & 0xFF) ==> va > vb) by (bit_vector);
        assert(va >> 8 <= 0xFF && va & 0xFF <= 0xFF && vb >> 8 <= 0xFF && vb & 0xFF <= 0xFF)
            by (bit_vector);
        assert(unit_hi(va) as int == (va >> 8) as int);
        assert(unit_hi(vb) as int == (vb >> 8) as int);
        assert(unit_lo(va) as int == (va & 0xFF) as int);
        assert(unit_lo(vb) as int == (vb & 0xFF) as int);
        let bx = bytes_of(x);
        let by = bytes_of(y);
        assert(bx[0] == unit_hi(va));
        assert(by[0] == unit_hi(vb));
        assert(bx.skip(1) =~= seq![unit_lo(va)] + bytes_of(x.skip(1)));
        assert(by.skip(1) =~= seq![unit_lo(vb)] + bytes_of(y.skip(1)));
        assert(bx.len() >= 2);
        assert(by.len() >= 2);
        if va == vb {
            lemma_bytes_lex(x.skip(1), y.skip(1));
            assert(bx.skip(1).skip(1) =~= bytes_of(x.skip(1)));
            assert(by.skip(1).skip(1) =~= bytes_of(y.skip(1)));
            assert(bx.skip(1)[0] == unit_lo(va));
            assert(by.skip(1)[0] == unit_lo(vb));
            assert(lex_cmp_u8(bx, by) == lex_cmp_u8(bx.skip(1), by.skip(1)));
            assert(lex_cmp_u8(bx.skip(1), by.skip(1)) == lex_cmp_u8(
                bytes_of(x.skip(1)),
                bytes_of(y.skip(1)),
            ));
            assert(lex_cmp_u16(x, y) == lex_cmp_u16(x.skip(1), y.skip(1)));
            assert(lex_cmp_u8(bytes_of(x), bytes_of(y)) == lex_cmp_u16(x, y));
        } else {
            assert(lex_cmp_u16(x, y) == cmp_int(va as int, vb as int));
            if unit_hi(va) == unit_hi(vb) {
                assert(bx.skip(1)[0] == unit_lo(va));
                assert(by.skip(1)[0] == unit_lo(vb));
                assert(unit_lo(va) != unit_lo(vb));
                assert(lex_cmp_u8(bx, by) == lex_cmp_u8(bx.skip(1), by.skip(1)));
                assert(lex_cmp_u8(bx.skip(1), by.skip(1)) == cmp_int(
                    unit_lo(va) as int,
                    unit_lo(vb) as int,
                ));
                assert(lex_cmp_u8(bytes_of(x), bytes_of(y)) == lex_cmp_u16(x, y));
            } else {
                assert(lex_cmp_u8(bx, by) == cmp_int(unit_hi(va) as int, unit_hi(vb) as int));
                assert(lex_cmp_u8(bytes_of(x), bytes_of(y)) == lex_cmp_u16(x, y));
            }
        }
    }
}

/// Sort-key monotonicity for the byte form: lexicographic comparison of two
/// byte keys returns the multi-level comparator's verdict on the two weight
/// streams.
pub proof fn lemma_sortkey_bytes_agree(x: Seq<u32>, y: Seq<u32>, shifting: bool)
    ensures
        lex_cmp_u8(
            bytes_of(trim_zeros(key_units(x, shifting))),
            bytes_of(trim_zeros(key_units(y, shifting))),
        ) == spec_cmp(x, y, shifting),
{
    lemma_bytes_lex(trim_zeros(key_units(x, shifting)), trim_zeros(key_units(y, shifting)));
    lemma_sortkey_agrees(x, y, shifting);
}

/// Sort-key monotonicity at the pipeline: for two inputs under one
/// configuration and data set, the lexicographic order of their sort keys is
/// the multi-level comparator's verdict on their generated weight streams.
/// The full collator adds the ASCII fast path, prefix trimming, the
/// first-weight exit and the code-point tie-break on top of that verdict, so
/// this is the guarantee the key serialization itself gives.
pub proof fn lemma_sortkey_monotone(
    a: Seq<u32>,
    b: Seq<u32>,
    shifting: bool,
    cldr: bool,
    tv: TablesView,
)
    ensures
        lex_cmp_u16(
            spec_sortkey(a, shifting, cldr, tv),
            spec_sortkey(b, shifting, cldr, tv),
        ) == spec_cmp(
            crate::cea::spec_cea(spec_nfd(a, tv.decomp), shifting, cldr, tv),
            crate::cea::spec_cea(spec_nfd(b, tv.decomp), shifting, cldr, tv),
            shifting,
        ),
{
    lemma_sortkey_agrees(
        crate::cea::spec_cea(spec_nfd(a, tv.decomp), shifting, cldr, tv),
        crate::cea::spec_cea(spec_nfd(b, tv.decomp), shifting, cldr, tv),
        shifting,
    );
}

/// Whether every code point of a sequence is ASCII alphanumeric.
pub open spec fn all_alnum(s: Seq<u32>) -> bool {
    forall|k: int| 0 <= k < s.len() ==> ascii_alnum(#[trigger] s[k])
}

/// A sequence case-folded pointwise.
pub open spec fn fold_seq(s: Seq<u32>) -> Seq<u32> {
    s.map_values(|c: u32| fold_case(c))
}

/// What the fast path decides on all-alphanumeric inputs: folded
/// lexicographic order first (a proper prefix wins), then - when the inputs
/// differ only in case - the case tie-break, decisive only in tie-break mode.
pub open spec fn fast_alnum_value(a: Seq<u32>, b: Seq<u32>, tiebreak: bool) -> Option<Ordering> {
    if lex_cmp_u32(fold_seq(a), fold_seq(b)) != Ordering::Equal {
        Some(lex_cmp_u32(fold_seq(a), fold_seq(b)))
    } else if a == b {
        None
    } else if tiebreak {
        Some(lex_cmp_u32(b, a))
    } else {
        Some(Ordering::Equal)
    }
}

/// A shared pointwise-equal prefix does not affect lexicographic comparison.
proof fn lemma_lex_skip_common(x: Seq<u32>, y: Seq<u32>, i: int)
    requires
        0 <= i <= x.len(),
        i <= y.len(),
        forall|k: int| 0 <= k < i ==> x[k] == y[k],
    ensures
        lex_cmp_u32(x, y) == lex_cmp_u32(x.skip(i), y.skip(i)),
    decreases i,
{
    if i > 0 {
        assert(x[0] == y[0]);
        assert(x.len() > 0 && y.len() > 0);
        assert(forall|k: int| 0 <= k < i - 1 ==> x.skip(1)[k] == y.skip(1)[k]);
        lemma_lex_skip_common(x.skip(1), y.skip(1), i - 1);
        assert(x.skip(1).skip(i - 1) =~= x.skip(i));
        assert(y.skip(1).skip(i - 1) =~= y.skip(i));
    } else {
        assert(x.skip(0) =~= x);
        assert(y.skip(0) =~= y);
    }
}

/// Once two equal-length sequences differ, appending one element to each
/// cannot change their lexicographic comparison.
proof fn lemma_lex_push_decided(u: Seq<u32>, v: Seq<u32>, c: u32, d: u32)
    requires
        u.len() == v.len(),
        u != v,
    ensures
        lex_cmp_u32(u.push(c), v.push(d)) == lex_cmp_u32(u, v),
    decreases u.len(),
{
    if u.len() == 0 {
        assert(u =~= v);
    } else if u[0] != v[0] {
        assert(u.push(c)[0] == u[0]);
        assert(v.push(d)[0] == v[0]);
    } else {
        assert(u.skip(1) != v.skip(1)) by {
            if u.skip(1) == v.skip(1) {
                assert forall|k: int| 0 <= k < u.len() implies u[k] == #[trigger] v[k] by {
                    if k > 0 {
                        assert(u.skip(1)[k - 1] == v.skip(1)[k - 1]);
                    }
                }
                assert(u =~= v);
            }
        }
        lemma_lex_push_decided(u.skip(1), v.skip(1), c, d);
        assert(u.push(c).skip(1) =~= u.skip(1).push(c));
        assert(v.push(d).skip(1) =~= v.skip(1).push(d));
    }
}

/// The fast-path walk on all-alphanumeric inputs computes the folded
/// lexicographic order with the case tie-break.
proof fn lemma_fast_alnum_at(a: Seq<u32>, b: Seq<u32>, i: int, bk: Option<Ordering>, tiebreak: bool)
    requires
        all_alnum(a),
        all_alnum(b),
        0 <= i <= a.len(),
        i <= b.len(),
        forall|k: int| 0 <= k < i ==> fold_case(a[k]) == fold_case(b[k]),
        bk == (if a.take(i) == b.take(i) {
            None::<Ordering>
        } else {
            Some(lex_cmp_u32(b.take(i), a.take(i)))
        }),
    ensures
        spec_fast_at(a, b, i, bk, tiebreak) == fast_alnum_value(a, b, tiebreak),
    decreases a.len() - i,
{
    let fa = fold_seq(a);
    let fb = fold_seq(b);
    assert(forall|k: int| 0 <= k < i ==> fa[k] == fb[k]);
    lemma_lex_skip_common(fa, fb, i);
    if i >= a.len() {
        if a.len() < b.len() {
            assert(fa.skip(i) =~= Seq::<u32>::empty());
            assert(fb.skip(i).len() > 0);
            assert(lex_cmp_u32(fa, fb) == Ordering::Less);
        } else {
            assert(a.len() == b.len());
            assert(fa =~= fb);
            lemma_lex_cmp_u32_refl(fa);
            if a.take(i) == b.take(i) {
                assert(a =~= a.take(i));
                assert(b =~= b.take(i));
                assert(a == b);
            } else {
                assert(a.take(i) =~= a);
                assert(b.take(i) =~= b);
                assert(a != b);
            }
        }
    } else if i >= b.len() {
        assert(ascii_alnum(a[i]));
        assert(fb.skip(i) =~= Seq::<u32>::empty());
        assert(fa.skip(i).len() > 0);
        assert(lex_cmp_u32(fa, fb) == Ordering::Greater);
    } else {
        assert(ascii_alnum(a[i]));
        assert(ascii_alnum(b[i]));
        if a[i] == b[i] {
            assert(a.take(i + 1) =~= a.take(i).push(a[i]));
            assert(b.take(i + 1) =~= b.take(i).push(b[i]));
            if a.take(i) == b.take(i) {
                assert(a.take(i + 1) == b.take(i + 1));
            } else {
                assert(a.take(i + 1) != b.take(i + 1)) by {
                    if a.take(i + 1) == b.take(i + 1) {
                        assert forall|k: int| 0 <= k < i implies a.take(i)[k] == b.take(i)[k] by {
                            assert(a.take(i + 1)[k] == b.take(i + 1)[k]);
                        }
                        assert(a.take(i) =~= b.take(i));
                    }
                }
                lemma_lex_push_decided(b.take(i), a.take(i), b[i], a[i]);
                assert(b.take(i).push(b[i]) =~= b.take(i + 1));
                assert(a.take(i).push(a[i]) =~= a.take(i + 1));
            }
            lemma_fast_alnum_at(a, b, i + 1, bk, tiebreak);
        } else if fold_case(a[i]) == fold_case(b[i]) {
            assert(a.take(i + 1) =~= a.take(i).push(a[i]));
            assert(b.take(i + 1) =~= b.take(i).push(b[i]));
            assert(a.take(i + 1) != b.take(i + 1)) by {
                assert(a.take(i + 1)[i] == a[i]);
                assert(b.take(i + 1)[i] == b[i]);
            }
            let bkn = if bk is None {
                Some(cmp_int(b[i] as int, a[i] as int))
            } else {
                bk
            };
            if a.take(i) == b.take(i) {
                assert(bk is None);
                assert(forall|k: int|
                    0 <= k < i ==> #[trigger] b.take(i + 1)[k] == a.take(i + 1)[k]);
                lemma_lex_skip_common(b.take(i + 1), a.take(i + 1), i);
                assert(b.take(i + 1).skip(i) =~= seq![b[i]]);
                assert(a.take(i + 1).skip(i) =~= seq![a[i]]);
                assert(seq![b[i]].skip(1) =~= Seq::<u32>::empty());
                assert(lex_cmp_u32(seq![b[i]], seq![a[i]]) == cmp_int(b[i] as int, a[i] as int));
                assert(bkn == Some(lex_cmp_u32(b.take(i + 1), a.take(i + 1))));
            } else {
                lemma_lex_push_decided(b.take(i), a.take(i), b[i], a[i]);
                assert(b.take(i).push(b[i]) =~= b.take(i + 1));
                assert(a.take(i).push(a[i]) =~= a.take(i + 1));
            }
            lemma_fast_alnum_at(a, b, i + 1, bkn, tiebreak);
        } else {
            assert(fa.skip(i)[0] == fold_case(a[i]));
            assert(fb.skip(i)[0] == fold_case(b[i]));
            assert(lex_cmp_u32(fa, fb) == cmp_int(fold_case(a[i]) as int, fold_case(b[i]) as int));
        }
    }
}

/// On all-alphanumeric inputs the fast path always decides (unless the inputs
/// are equal), by folded order first and case second.
pub proof fn lemma_fast_alnum(a: Seq<u32>, b: Seq<u32>, tiebreak: bool)
    requires
        all_alnum(a),
        all_alnum(b),
    ensures
        spec_fast(a, b, tiebreak) == fast_alnum_value(a, b, tiebreak),
{
    assert(a.take(0) =~= b.take(0));
    lemma_fast_alnum_at(a, b, 0, None, tiebreak);
}

/// Transitivity on all-alphanumeric inputs: there the whole comparison is the
/// decisive ASCII fast path, which orders by folded lexicographic order and
/// then by case, both transitive. (Past the fast path the verdict rests on
/// the weight data; the multi-level comparator's own transitivity is proved
/// separately.)
pub proof fn lemma_collate_transitive_alnum(
    a: Seq<u32>,
    b: Seq<u32>,
    c: Seq<u32>,
    cldr: bool,
    shifting: bool,
    tiebreak: bool,
    tv: TablesView,
)
    requires
        all_alnum(a),
        all_alnum(b),
        all_alnum(c),
        spec_collate(a, b, cldr, shifting, tiebreak, tv) == Ordering::Less,
        spec_collate(b, c, cldr, shifting, tiebreak, tv) == Ordering::Less,
    ensures
        spec_collate(a, c, cldr, shifting, tiebreak, tv) == Ordering::Less,
{
    lemma_fast_alnum(a, b, tiebreak);
    lemma_fast_alnum(b, c, tiebreak);
    lemma_fast_alnum(a, c, tiebreak);
    let fa = fold_seq(a);
    let fb = fold_seq(b);
    let fc = fold_seq(c);
    assert(a != b);
    assert(b != c);
    let lab = lex_cmp_u32(fa, fb);
    let lbc = lex_cmp_u32(fb, fc);
    if lab != Ordering::Equal {
        assert(lab == Ordering::Less);
        if lbc != Ordering::Equal {
            assert(lbc == Ordering::Less);
            lemma_lex_cmp_u32_trans(fa, fb, fc);
            if a == c {
                lemma_lex_cmp_u32_refl(fa);
                assert(fa =~= fc);
            }
        } else {
            lemma_lex_cmp_u32_eq(fb, fc);
            if a == c {
                lemma_lex_cmp_u32_refl(fa);
                assert(fa =~= fc);
            }
        }
    } else {
        lemma_lex_cmp_u32_eq(fa, fb);
        assert(tiebreak);
        assert(lex_cmp_u32(b, a) == Ordering::Less);
        if lbc != Ordering::Equal {
            assert(lbc == Ordering::Less);
            assert(lex_cmp_u32(fa, fc) == Ordering::Less);
            if a == c {
                lemma_lex_cmp_u32_refl(fa);
                assert(fa =~= fc);
            }
        } else {
            lemma_lex_cmp_u32_eq(fb, fc);
            assert(lex_cmp_u32(c, b) == Ordering::Less);
            lemma_lex_cmp_u32_trans(c, b, a);
            if a == c {
                lemma_lex_cmp_u32_antisym(a, b);
            }
            lemma_lex_cmp_u32_refl(fa);
            assert(fa =~= fc);
        }
    }
}

/// Antisymmetry without a side condition on all-alphanumeric inputs: there
/// the fast path is decisive for both input orders exactly when the inputs
/// differ, so the general antisymmetry law applies outright.
pub proof fn lemma_collate_antisymmetric_alnum(
    a: Seq<u32>,
    b: Seq<u32>,
    cldr: bool,
    shifting: bool,
    tiebreak: bool,
    tv: TablesView,
)
    requires
        all_alnum(a),
        all_alnum(b),
    ensures
        spec_collate(a, b, cldr, shifting, tiebreak, tv) == reverse(
            spec_collate(b, a, cldr, shifting, tiebreak, tv),
        ),
{
    lemma_fast_alnum(a, b, tiebreak);
    lemma_fast_alnum(b, a, tiebreak);
    if a == b {
        lemma_lex_cmp_u32_refl(fold_seq(a));
        assert(fold_seq(a) =~= fold_seq(b));
    }
    if b == a {
        assert(a == b);
    }
    if lex_cmp_u32(fold_seq(a), fold_seq(b)) == Ordering::Equal {
        lemma_lex_cmp_u32_eq(fold_seq(a), fold_seq(b));
    }
    if lex_cmp_u32(fold_seq(b), fold_seq(a)) == Ordering::Equal {
        lemma_lex_cmp_u32_eq(fold_seq(b), fold_seq(a));
    }
    lemma_collate_antisymmetric(a, b, cldr, shifting, tiebreak, tv);
}

/// Determinism: the collator's contract pins its result to a function of the
/// inputs, the configuration and the data set alone, so any two calls that
/// meet it on the same arguments return the same answer.
pub proof fn lemma_collate_deterministic(
    r1: Ordering,
    r2: Ordering,
    a: Seq<u32>,
    b: Seq<u32>,
    cldr: bool,
    shifting: bool,
    tiebreak: bool,
    tv: TablesView,
)
    requires
        r1 == spec_collate(a, b, cldr, shifting, tiebreak, tv),
        r2 == spec_collate(a, b, cldr, shifting, tiebreak, tv),
    ensures
        r1 == r2,
{
}

/// On equal-length inputs the fast-path walk is decisive in one direction
/// exactly when it is in the other: the walks stop at the same position.
proof fn lemma_fast_at_sym_equal_len(
    a: Seq<u32>,
    b: Seq<u32>,
    i: int,
    bk1: Option<Ordering>,
    bk2: Option<Ordering>,
    tiebreak: bool,
)
    requires
        a.len() == b.len(),
        0 <= i <= a.len(),
        bk2 == rev_opt(bk1),
    ensures
        (spec_fast_at(a, b, i, bk1, tiebreak) is Some) <==> (spec_fast_at(
            b,
            a,
            i,
            bk2,
            tiebreak,
        ) is Some),
    decreases a.len() - i,
{
    if i >= a.len() {
    } else if !ascii_alnum(a[i]) || !ascii_alnum(b[i]) {
    } else if a[i] == b[i] {
        lemma_fast_at_sym_equal_len(a, b, i + 1, bk1, bk2, tiebreak);
    } else if fold_case(a[i]) == fold_case(b[i]) {
        let bk1n = if bk1 is None {
            Some(cmp_int(b[i] as int, a[i] as int))
        } else {
            bk1
        };
        let bk2n = if bk2 is None {
            Some(cmp_int(a[i] as int, b[i] as int))
        } else {
            bk2
        };
        lemma_fast_at_sym_equal_len(a, b, i + 1, bk1n, bk2n, tiebreak);
    } else {
    }
}

/// Antisymmetry without a side condition on equal-length inputs: a one-sided
/// fast-path decision needs a length mismatch, so it cannot arise here.
pub proof fn lemma_collate_antisymmetric_equal_len(
    a: Seq<u32>,
    b: Seq<u32>,
    cldr: bool,
    shifting: bool,
    tiebreak: bool,
    tv: TablesView,
)
    requires
        a.len() == b.len(),
    ensures
        spec_collate(a, b, cldr, shifting, tiebreak, tv) == reverse(
            spec_collate(b, a, cldr, shifting, tiebreak, tv),
        ),
{
    lemma_fast_at_sym_equal_len(a, b, 0, None, None, tiebreak);
    lemma_collate_antisymmetric(a, b, cldr, shifting, tiebreak, tv);
}

} // verus!
