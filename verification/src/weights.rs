//! The weight codec: a collation element packs a primary weight (16 bits), a
//! secondary weight (9 bits), a tertiary weight (6 bits) and a variability
//! flag (1 bit) into one `u32` word, and the "shifted" transform of UTS #10
//! rewrites variable elements for quaternary-only comparison.

use vstd::prelude::*;

verus! {

/// The primary weight: the top 16 bits of the packed word.
pub open spec fn prim_of(w: u32) -> u16 {
    (w >> 16) as u16
}

/// The secondary weight: the low 9 bits of the packed word.
pub open spec fn sec_of(w: u32) -> u16 {
    (w & 0x1ff) as u16
}

/// The tertiary weight: 6 bits above the secondary.
pub open spec fn tert_of(w: u32) -> u16 {
    ((w >> 9) & 0x3f) as u16
}

/// The variability flag: bit 15 of the packed word.
pub open spec fn var_of(w: u32) -> bool {
    w & 0x8000 != 0
}

/// The packed word holding the four parts of a collation element.
pub open spec fn spec_pack(variable: bool, primary: u16, secondary: u16, tertiary: u16) -> u32 {
    (((primary as u32) << 16) | (if variable {
        0x8000u32
    } else {
        0u32
    }) | ((tertiary as u32) << 9) | (secondary as u32)) as u32
}

pub fn pack_weights(variable: bool, primary: u16, secondary: u16, tertiary: u16) -> (w: u32)
    requires
        secondary < 512,
        tertiary < 64,
    ensures
        w == spec_pack(variable, primary, secondary, tertiary),
        prim_of(w) == primary,
        sec_of(w) == secondary,
        tert_of(w) == tertiary,
        var_of(w) == variable,
{
    let v: u32 = if variable {
        0x8000
    } else {
        0
    };
    let w = ((primary as u32) << 16) | v | ((tertiary as u32) << 9) | (secondary as u32);
    proof {
        assert((((primary as u32) << 16) | (if variable {
            0x8000u32
        } else {
            0u32
        }) | ((tertiary as u32) << 9) | (secondary as u32)) >> 16 == primary
            && (((primary as u32) << 16) | (if variable {
            0x8000u32
        } else {
            0u32
        }) | ((tertiary as u32) << 9) | (secondary as u32)) & 0x1ff == secondary && ((((
        primary as u32) << 16) | (if variable {
            0x8000u32
        } else {
            0u32
        }) | ((tertiary as u32) << 9) | (secondary as u32)) >> 9) & 0x3f == tertiary && ((((
        primary as u32) << 16) | (if variable {
            0x8000u32
        } else {
            0u32
        }) | ((tertiary as u32) << 9) | (secondary as u32)) & 0x8000 != 0) == variable)
            by (bit_vector)
            requires
                secondary < 512,
                tertiary < 64,
        ;
    }
    w
}

/// Reads the primary weight out of a packed word.
pub fn primary(w: u32) -> (p: u16)
    ensures
        p == prim_of(w),
{
    (w >> 16) as u16
}

/// Reads the secondary weight out of a packed word.
pub fn secondary(w: u32) -> (s: u16)
    ensures
        s == sec_of(w),
{
    proof {
        assert(w & 0x1ff < 512) by (bit_vector);
    }
    (w & 0x1ff) as u16
}

/// Reads the tertiary weight out of a packed word.
pub fn tertiary(w: u32) -> (t: u16)
    ensures
        t == tert_of(w),
{
    proof {
        assert((w >> 9) & 0x3f < 64) by (bit_vector);
    }
    ((w >> 9) & 0x3f) as u16
}

/// Reads the variability flag out of a packed word.
pub fn variability(w: u32) -> (v: bool)
    ensures
        v == var_of(w),
{
    w & 0x8000 != 0
}

/// The shifted transform of one element (UTS #10, "Shifted"): a variable
/// element keeps only its primary (for the quaternary level) and raises the
/// variable state; a primary-ignorable element following a variable one is
/// suppressed entirely; anything else passes through and clears the state.
pub open spec fn spec_shift(w: u32, last_variable: bool) -> (u32, bool) {
    if var_of(w) {
        (spec_pack(true, prim_of(w), 0, 0), true)
    } else if prim_of(w) == 0 && last_variable {
        (0u32, last_variable)
    } else {
        (w, false)
    }
}

pub fn shift_weights(w: u32, last_variable: &mut bool) -> (r: u32)
    ensures
        r == spec_shift(w, *old(last_variable)).0,
        *final(last_variable) == spec_shift(w, *old(last_variable)).1,
{
    if variability(w) {
        *last_variable = true;
        pack_weights(true, primary(w), 0, 0)
    } else if primary(w) == 0 && *last_variable {
        0
    } else {
        *last_variable = false;
        w
    }
}

/// The shifted transform folded over a row of elements, threading the
/// variable state left to right.
pub open spec fn spec_shift_row(row: Seq<u32>, last_variable: bool) -> (Seq<u32>, bool)
    decreases row.len(),
{
    if row.len() == 0 {
        (Seq::<u32>::empty(), last_variable)
    } else {
        let head = spec_shift(row[0], last_variable);
        let rest = spec_shift_row(row.skip(1), head.1);
        (seq![head.0] + rest.0, rest.1)
    }
}

/// A row passed through the shifted transform keeps its length.
pub proof fn lemma_shift_row_len(row: Seq<u32>, last_variable: bool)
    ensures
        spec_shift_row(row, last_variable).0.len() == row.len(),
    decreases row.len(),
{
    if row.len() > 0 {
        lemma_shift_row_len(row.skip(1), spec_shift(row[0], last_variable).1);
    }
}

} // verus!
