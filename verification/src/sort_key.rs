//! The multi-level comparator. Two collation element streams are compared
//! level by level: the whole streams' nonzero primaries first, then
//! secondaries, then tertiaries, and — in shifted mode — quaternaries (the
//! primaries of variable or tertiary-weighted elements). The first point of
//! difference at the earliest differing level decides. A stream ends at its
//! sentinel word.

use core::cmp::Ordering;
use crate::order::{cmp_int, cmp_u16, reverse};
use crate::weights::{prim_of, sec_of, tert_of, var_of};
use vstd::prelude::*;

verus! {

/// One comparison level of the algorithm.
#[derive(Debug, PartialEq, Eq, Clone, Copy, Structural)]
pub enum Level {
    Primary,
    PrimaryShifted,
    Secondary,
    Tertiary,
    Quaternary,
}

/// Whether an element takes part in a level at all: the shifted primary level
/// excludes variable elements, the quaternary level admits only variable or
/// tertiary-weighted elements.
pub open spec fn level_keep(w: u32, l: Level) -> bool {
    match l {
        Level::Primary => true,
        Level::PrimaryShifted => !var_of(w),
        Level::Secondary => true,
        Level::Tertiary => true,
        Level::Quaternary => var_of(w) || tert_of(w) != 0,
    }
}

/// The weight an element contributes to a level.
pub open spec fn level_val(w: u32, l: Level) -> u16 {
    match l {
        Level::Primary => prim_of(w),
        Level::PrimaryShifted => prim_of(w),
        Level::Secondary => sec_of(w),
        Level::Tertiary => tert_of(w),
        Level::Quaternary => prim_of(w),
    }
}

/// The nonzero projection of one level of a weight stream, read from index
/// `i` up to the sentinel (or the end of the buffer).
pub open spec fn sproj(s: Seq<u32>, i: int, l: Level) -> Seq<u16>
    decreases s.len() - i,
{
    if i < 0 || i >= s.len() || s[i] == u32::MAX {
        Seq::empty()
    } else if level_keep(s[i], l) && level_val(s[i], l) != 0 {
        seq![level_val(s[i], l)] + sproj(s, i + 1, l)
    } else {
        sproj(s, i + 1, l)
    }
}

/// The nonzero projection of one level of a whole weight stream.
pub open spec fn proj(s: Seq<u32>, l: Level) -> Seq<u16> {
    sproj(s, 0, l)
}

/// Lock-step comparison of two level projections, reading a missing element
/// as zero: the projection that runs out first sorts first, unless a real
/// difference came earlier.
pub open spec fn wcmp(x: Seq<u16>, y: Seq<u16>) -> Ordering
    decreases x.len() + y.len(),
{
    let hx: u16 = if x.len() > 0 {
        x[0]
    } else {
        0
    };
    let hy: u16 = if y.len() > 0 {
        y[0]
    } else {
        0
    };
    if hx != hy {
        cmp_int(hx as int, hy as int)
    } else if hx == 0 {
        Ordering::Equal
    } else {
        wcmp(x.skip(1), y.skip(1))
    }
}

/// What the multi-level comparator returns on two weight streams.
pub open spec fn spec_cmp(a: Seq<u32>, b: Seq<u32>, shifting: bool) -> Ordering {
    let pl = if shifting {
        Level::PrimaryShifted
    } else {
        Level::Primary
    };
    let p = wcmp(proj(a, pl), proj(b, pl));
    if p != Ordering::Equal {
        p
    } else {
        let s = wcmp(proj(a, Level::Secondary), proj(b, Level::Secondary));
        if s != Ordering::Equal {
            s
        } else {
            let t = wcmp(proj(a, Level::Tertiary), proj(b, Level::Tertiary));
            if t != Ordering::Equal {
                t
            } else if !shifting {
                Ordering::Equal
            } else {
                wcmp(proj(a, Level::Quaternary), proj(b, Level::Quaternary))
            }
        }
    }
}

/// Finds the next element of a level's projection: returns the position to
/// resume from and the projected weight, or zero when the level is exhausted.
pub(crate) fn level_scan(cea: &[u32], from: usize, l: Level) -> (r: (usize, u16))
    ensures
        r.1 == 0 ==> sproj(cea@, from as int, l) == Seq::<u16>::empty(),
        r.1 != 0 ==> sproj(cea@, from as int, l) == seq![r.1] + sproj(cea@, r.0 as int, l),
        r.1 != 0 ==> from < r.0 <= cea@.len(),
{
    let mut i: usize = from;
    loop
        invariant
            from <= i,
            sproj(cea@, from as int, l) == sproj(cea@, i as int, l),
        decreases cea@.len() - i,
    {
        if i >= cea.len() {
            return (i, 0);
        }
        let w = cea[i];
        if w == u32::MAX {
            return (i, 0);
        }
        let keep = match l {
            Level::Primary => true,
            Level::PrimaryShifted => !crate::weights::variability(w),
            Level::Secondary => true,
            Level::Tertiary => true,
            Level::Quaternary => crate::weights::variability(w) || crate::weights::tertiary(w)
                != 0,
        };
        if keep {
            let v = match l {
                Level::Primary => crate::weights::primary(w),
                Level::PrimaryShifted => crate::weights::primary(w),
                Level::Secondary => crate::weights::secondary(w),
                Level::Tertiary => crate::weights::tertiary(w),
                Level::Quaternary => crate::weights::primary(w),
            };
            if v != 0 {
                return (i + 1, v);
            }
        }
        i += 1;
    }
}

/// Compares one level of two weight streams; `None` means the level ties and
/// the next level must decide.
fn compare_level(a_cea: &[u32], b_cea: &[u32], l: Level) -> (r: Option<Ordering>)
    ensures
        ({
            let c = wcmp(proj(a_cea@, l), proj(b_cea@, l));
            r == if c == Ordering::Equal {
                None::<Ordering>
            } else {
                Some(c)
            }
        }),
{
    let mut ia: usize = 0;
    let mut ib: usize = 0;
    loop
        invariant
            wcmp(proj(a_cea@, l), proj(b_cea@, l)) == wcmp(
                sproj(a_cea@, ia as int, l),
                sproj(b_cea@, ib as int, l),
            ),
            ia <= a_cea@.len(),
            ib <= b_cea@.len(),
        decreases (a_cea@.len() - ia) + (b_cea@.len() - ib),
    {
        let (na, va) = level_scan(a_cea, ia, l);
        let (nb, vb) = level_scan(b_cea, ib, l);
        proof {
            if va != 0 {
                assert(sproj(a_cea@, ia as int, l)[0] == va);
            }
            if vb != 0 {
                assert(sproj(b_cea@, ib as int, l)[0] == vb);
            }
        }
        if va != vb {
            return Some(cmp_u16(va, vb));
        }
        if va == 0 {
            return None;
        }
        proof {
            assert((seq![va] + sproj(a_cea@, na as int, l)).skip(1) =~= sproj(
                a_cea@,
                na as int,
                l,
            ));
            assert((seq![vb] + sproj(b_cea@, nb as int, l)).skip(1) =~= sproj(
                b_cea@,
                nb as int,
                l,
            ));
        }
        ia = na;
        ib = nb;
    }
}

/// Primary-level comparison without shifting.
fn compare_primary(a_cea: &[u32], b_cea: &[u32]) -> (r: Option<Ordering>)
    ensures
        ({
            let c = wcmp(proj(a_cea@, Level::Primary), proj(b_cea@, Level::Primary));
            r == if c == Ordering::Equal {
                None::<Ordering>
            } else {
                Some(c)
            }
        }),
{
    compare_level(a_cea, b_cea, Level::Primary)
}

/// Primary-level comparison in shifted mode: variable elements are excluded.
fn compare_primary_shifting(a_cea: &[u32], b_cea: &[u32]) -> (r: Option<Ordering>)
    ensures
        ({
            let c = wcmp(proj(a_cea@, Level::PrimaryShifted), proj(b_cea@, Level::PrimaryShifted));
            r == if c == Ordering::Equal {
                None::<Ordering>
            } else {
                Some(c)
            }
        }),
{
    compare_level(a_cea, b_cea, Level::PrimaryShifted)
}

/// Secondary-level comparison.
fn compare_secondary(a_cea: &[u32], b_cea: &[u32]) -> (r: Option<Ordering>)
    ensures
        ({
            let c = wcmp(proj(a_cea@, Level::Secondary), proj(b_cea@, Level::Secondary));
            r == if c == Ordering::Equal {
                None::<Ordering>
            } else {
                Some(c)
            }
        }),
{
    compare_level(a_cea, b_cea, Level::Secondary)
}

/// Tertiary-level comparison.
fn compare_tertiary(a_cea: &[u32], b_cea: &[u32]) -> (r: Option<Ordering>)
    ensures
        ({
            let c = wcmp(proj(a_cea@, Level::Tertiary), proj(b_cea@, Level::Tertiary));
            r == if c == Ordering::Equal {
                None::<Ordering>
            } else {
                Some(c)
            }
        }),
{
    compare_level(a_cea, b_cea, Level::Tertiary)
}

/// Quaternary-level comparison: the primaries of variable or
/// tertiary-weighted elements, evaluated only in shifted mode.
fn compare_quaternary(a_cea: &[u32], b_cea: &[u32]) -> (r: Option<Ordering>)
    ensures
        ({
            let c = wcmp(proj(a_cea@, Level::Quaternary), proj(b_cea@, Level::Quaternary));
            r == if c == Ordering::Equal {
                None::<Ordering>
            } else {
                Some(c)
            }
        }),
{
    compare_level(a_cea, b_cea, Level::Quaternary)
}

/// Compares two collation element streams level by level.
pub fn compare_incremental(a_cea: &[u32], b_cea: &[u32], shifting: bool) -> (r: Ordering)
    ensures
        r == spec_cmp(a_cea@, b_cea@, shifting),
{
    if shifting {
        if let Some(o) = compare_primary_shifting(a_cea, b_cea) {
            return o;
        }
    } else {
        if let Some(o) = compare_primary(a_cea, b_cea) {
            return o;
        }
    }
    if let Some(o) = compare_secondary(a_cea, b_cea) {
        return o;
    }
    if let Some(o) = compare_tertiary(a_cea, b_cea) {
        return o;
    }
    if !shifting {
        return Ordering::Equal;
    }
    if let Some(o) = compare_quaternary(a_cea, b_cea) {
        return o;
    }
    Ordering::Equal
}

/// A projection reads the same from a buffer that holds the stream followed
/// by the sentinel as from the stream itself.
pub proof fn lemma_sproj_cut(buf: Seq<u32>, x: Seq<u32>, l: Level, i: int)
    requires
        x.len() < buf.len(),
        buf.take(x.len() as int) == x,
        buf[x.len() as int] == u32::MAX,
        0 <= i <= x.len(),
    ensures
        sproj(buf, i, l) == sproj(x, i, l),
    decreases x.len() - i,
{
    if i < x.len() {
        assert(buf[i] == buf.take(x.len() as int)[i]);
        lemma_sproj_cut(buf, x, l, i + 1);
    }
}

/// The multi-level comparison of two sentinel-terminated buffers is the
/// comparison of the streams they hold.
pub proof fn lemma_cmp_cut(
    buf_a: Seq<u32>,
    x_a: Seq<u32>,
    buf_b: Seq<u32>,
    x_b: Seq<u32>,
    shifting: bool,
)
    requires
        x_a.len() < buf_a.len(),
        buf_a.take(x_a.len() as int) == x_a,
        buf_a[x_a.len() as int] == u32::MAX,
        x_b.len() < buf_b.len(),
        buf_b.take(x_b.len() as int) == x_b,
        buf_b[x_b.len() as int] == u32::MAX,
    ensures
        spec_cmp(buf_a, buf_b, shifting) == spec_cmp(x_a, x_b, shifting),
{
    lemma_sproj_cut(buf_a, x_a, Level::Primary, 0);
    lemma_sproj_cut(buf_a, x_a, Level::PrimaryShifted, 0);
    lemma_sproj_cut(buf_a, x_a, Level::Secondary, 0);
    lemma_sproj_cut(buf_a, x_a, Level::Tertiary, 0);
    lemma_sproj_cut(buf_a, x_a, Level::Quaternary, 0);
    lemma_sproj_cut(buf_b, x_b, Level::Primary, 0);
    lemma_sproj_cut(buf_b, x_b, Level::PrimaryShifted, 0);
    lemma_sproj_cut(buf_b, x_b, Level::Secondary, 0);
    lemma_sproj_cut(buf_b, x_b, Level::Tertiary, 0);
    lemma_sproj_cut(buf_b, x_b, Level::Quaternary, 0);
}

/// A projection compared against itself ties.
pub proof fn lemma_wcmp_refl(x: Seq<u16>)
    ensures
        wcmp(x, x) == Ordering::Equal,
    decreases x.len(),
{
    if x.len() > 0 && x[0] != 0 {
        lemma_wcmp_refl(x.skip(1));
    }
}

/// Swapping the operands of a level comparison reverses the result.
pub proof fn lemma_wcmp_antisym(x: Seq<u16>, y: Seq<u16>)
    ensures
        wcmp(x, y) == reverse(wcmp(y, x)),
    decreases x.len() + y.len(),
{
    let hx: u16 = if x.len() > 0 {
        x[0]
    } else {
        0
    };
    let hy: u16 = if y.len() > 0 {
        y[0]
    } else {
        0
    };
    if hx == hy && hx != 0 {
        lemma_wcmp_antisym(x.skip(1), y.skip(1));
    }
}

/// Level comparison is transitive.
pub proof fn lemma_wcmp_trans(x: Seq<u16>, y: Seq<u16>, z: Seq<u16>)
    requires
        wcmp(x, y) == Ordering::Less,
        wcmp(y, z) == Ordering::Less,
    ensures
        wcmp(x, z) == Ordering::Less,
    decreases x.len() + y.len() + z.len(),
{
    let hx: u16 = if x.len() > 0 {
        x[0]
    } else {
        0
    };
    let hy: u16 = if y.len() > 0 {
        y[0]
    } else {
        0
    };
    let hz: u16 = if z.len() > 0 {
        z[0]
    } else {
        0
    };
    if hx == hy && hy == hz {
        lemma_wcmp_trans(x.skip(1), y.skip(1), z.skip(1));
    }
}

/// A stream compared against itself ties at every level.
pub proof fn lemma_spec_cmp_refl(a: Seq<u32>, shifting: bool)
    ensures
        spec_cmp(a, a, shifting) == Ordering::Equal,
{
    lemma_wcmp_refl(proj(a, Level::Primary));
    lemma_wcmp_refl(proj(a, Level::PrimaryShifted));
    lemma_wcmp_refl(proj(a, Level::Secondary));
    lemma_wcmp_refl(proj(a, Level::Tertiary));
    lemma_wcmp_refl(proj(a, Level::Quaternary));
}

/// Swapping the operands of the multi-level comparison reverses the result.
pub proof fn lemma_spec_cmp_antisym(a: Seq<u32>, b: Seq<u32>, shifting: bool)
    ensures
        spec_cmp(a, b, shifting) == reverse(spec_cmp(b, a, shifting)),
{
    lemma_wcmp_antisym(proj(a, Level::Primary), proj(b, Level::Primary));
    lemma_wcmp_antisym(proj(a, Level::PrimaryShifted), proj(b, Level::PrimaryShifted));
    lemma_wcmp_antisym(proj(a, Level::Secondary), proj(b, Level::Secondary));
    lemma_wcmp_antisym(proj(a, Level::Tertiary), proj(b, Level::Tertiary));
    lemma_wcmp_antisym(proj(a, Level::Quaternary), proj(b, Level::Quaternary));
}

/// The multi-level comparison is transitive.
pub proof fn lemma_spec_cmp_trans(a: Seq<u32>, b: Seq<u32>, c: Seq<u32>, shifting: bool)
    requires
        spec_cmp(a, b, shifting) == Ordering::Less,
        spec_cmp(b, c, shifting) == Ordering::Less,
    ensures
        spec_cmp(a, c, shifting) == Ordering::Less,
{
    let pl = if shifting {
        Level::PrimaryShifted
    } else {
        Level::Primary
    };
    lemma_wcmp_level_trans(proj(a, pl), proj(b, pl), proj(c, pl));
    lemma_wcmp_level_trans(
        proj(a, Level::Secondary),
        proj(b, Level::Secondary),
        proj(c, Level::Secondary),
    );
    lemma_wcmp_level_trans(
        proj(a, Level::Tertiary),
        proj(b, Level::Tertiary),
        proj(c, Level::Tertiary),
    );
    lemma_wcmp_level_trans(
        proj(a, Level::Quaternary),
        proj(b, Level::Quaternary),
        proj(c, Level::Quaternary),
    );
}

/// Transitivity of one level under the three-valued reading: equal results
/// compose, and Less absorbs an Equal on either side.
proof fn lemma_wcmp_level_trans(x: Seq<u16>, y: Seq<u16>, z: Seq<u16>)
    ensures
        wcmp(x, y) == Ordering::Equal && wcmp(y, z) == Ordering::Equal ==> wcmp(x, z)
            == Ordering::Equal,
        wcmp(x, y) == Ordering::Equal && wcmp(y, z) == Ordering::Less ==> wcmp(x, z)
            == Ordering::Less,
        wcmp(x, y) == Ordering::Less && wcmp(y, z) == Ordering::Equal ==> wcmp(x, z)
            == Ordering::Less,
        wcmp(x, y) == Ordering::Less && wcmp(y, z) == Ordering::Less ==> wcmp(x, z)
            == Ordering::Less,
    decreases x.len() + y.len() + z.len(),
{
    let hx: u16 = if x.len() > 0 {
        x[0]
    } else {
        0
    };
    let hy: u16 = if y.len() > 0 {
        y[0]
    } else {
        0
    };
    let hz: u16 = if z.len() > 0 {
        z[0]
    } else {
        0
    };
    if hx == hy && hy == hz && hx != 0 {
        lemma_wcmp_level_trans(x.skip(1), y.skip(1), z.skip(1));
    }
}

} // verus!
