//! The tailoring selectors: which set of weight tables, and which
//! script-specific behaviour, a collator works under.

use vstd::prelude::*;

verus! {

/// The script-specific CLDR table variants.
#[derive(Debug, PartialEq, Eq, Clone, Copy, Structural)]
pub enum Locale {
    ArabicScript,
    ArabicInterleaved,
    Root,
}

/// Which ordering a collator follows: the CLDR root (or a script variant
/// layered over it), or the raw DUCET.
#[derive(Debug, PartialEq, Eq, Clone, Copy, Structural)]
pub enum Tailoring {
    Cldr(Locale),
    Ducet,
}

impl Default for Locale {
    fn default() -> (r: Self)
        ensures
            r == Locale::Root,
    {
        Locale::Root
    }
}

impl Default for Tailoring {
    fn default() -> (r: Self)
        ensures
            r == Tailoring::Cldr(Locale::Root),
    {
        Tailoring::Cldr(Locale::Root)
    }
}

/// Whether a tailoring enables the CLDR-specific contraction reordering.
pub open spec fn spec_is_cldr(t: Tailoring) -> bool {
    t != Tailoring::Ducet
}

} // verus!
