//! An early-exit attempt before full weight-stream generation: when the two
//! leading code points cannot open contractions and their first primary
//! weights are known, nonzero and different, that primary difference already
//! decides the comparison.

use core::cmp::Ordering;
use crate::cea_utils::{implicit_a, spec_implicit_a};
use crate::collate::Collator;
use crate::order::cmp_int;
use crate::tables::{set_contains, TablesView};
use crate::weights::{prim_of, primary, var_of, variability};
use vstd::prelude::*;

verus! {

/// Whether two leading code points are safe for the early exit: different,
/// and triggering no contraction lookahead.
pub open spec fn spec_safe_chars(a: u32, b: u32, tv: TablesView) -> bool {
    &&& a != b
    &&& !tv.need_two.contains(a)
    &&& !tv.need_two.contains(b)
    &&& !tv.need_three.contains(a)
    &&& !tv.need_three.contains(b)
}

/// The first primary weight the generator would emit for a code point, or
/// zero when it is unknown or suppressed: variable weights count as unknown
/// in shifted mode, and an empty tabulated row says nothing.
pub open spec fn spec_first_primary(c: u32, shifting: bool, tv: TablesView) -> u16 {
    if c < 0xB7 && c != 0x6C && c != 0x4C && tv.low.contains_key(c) {
        if shifting && var_of(tv.low[c]) {
            0
        } else {
            prim_of(tv.low[c])
        }
    } else if tv.singles.contains_key(c) {
        if tv.singles[c].len() == 0 {
            0
        } else if shifting && var_of(tv.singles[c][0]) {
            0
        } else {
            prim_of(tv.singles[c][0])
        }
    } else {
        prim_of(spec_implicit_a(c, tv.unassigned))
    }
}

/// What the early exit decides, if anything: the comparison of the two first
/// primaries when both are known, nonzero and different.
pub open spec fn spec_try_initial(
    a: Seq<u32>,
    b: Seq<u32>,
    shifting: bool,
    tv: TablesView,
) -> Option<Ordering> {
    if a.len() == 0 || b.len() == 0 {
        None
    } else if !spec_safe_chars(a[0], b[0], tv) {
        None
    } else {
        let ap = spec_first_primary(a[0], shifting, tv);
        let bp = spec_first_primary(b[0], shifting, tv);
        if ap == 0 || bp == 0 || ap == bp {
            None
        } else {
            Some(cmp_int(ap as int, bp as int))
        }
    }
}

fn safe_chars(a: u32, b: u32, coll: &Collator) -> (r: bool)
    ensures
        r == spec_safe_chars(a, b, coll.tables@),
{
    a != b && !set_contains(&coll.tables.need_two, a) && !set_contains(&coll.tables.need_two, b)
        && !set_contains(&coll.tables.need_three, a) && !set_contains(&coll.tables.need_three, b)
}

fn get_first_primary(val: u32, coll: &Collator) -> (p: u16)
    ensures
        p == spec_first_primary(val, coll.shifting, coll.tables@),
{
    let shifting = coll.shifting;
    if val < 0xB7 && val != 0x6C && val != 0x4C {
        match coll.tables.low.get(val) {
            Some(w) => {
                if shifting && variability(w) {
                    return 0;
                }
                return primary(w);
            },
            None => {},
        }
    }
    match coll.tables.singles.get(val) {
        Some(row) => {
            if row.len() == 0 {
                return 0;
            }
            let w = row[0];
            if shifting && variability(w) {
                return 0;
            }
            primary(w)
        },
        None => {
            let w = implicit_a(val, &coll.tables.unassigned);
            primary(w)
        },
    }
}

/// Tries to decide the comparison from the two leading code points alone.
pub fn try_initial(coll: &Collator, a_chars: &[u32], b_chars: &[u32]) -> (r: Option<Ordering>)
    requires
        a_chars@.len() > 0,
        b_chars@.len() > 0,
    ensures
        r == spec_try_initial(a_chars@, b_chars@, coll.shifting, coll.tables@),
{
    let a_first = a_chars[0];
    let b_first = b_chars[0];
    if !safe_chars(a_first, b_first, coll) {
        return None;
    }
    let a_first_primary = get_first_primary(a_first, coll);
    if a_first_primary == 0 {
        return None;
    }
    let b_first_primary = get_first_primary(b_first, coll);
    if b_first_primary == 0 || b_first_primary == a_first_primary {
        return None;
    }
    Some(crate::order::cmp_u16(a_first_primary, b_first_primary))
}

} // verus!
