//! The collator: configuration, reusable scratch buffers, and the full
//! comparison pipeline. Two inputs are compared by: literal equality, the
//! ASCII fast path, canonical normalization (equal forms tie or fall to the
//! code-point tie-break), common-prefix elimination, the first-weight early
//! exit, and finally generation and multi-level comparison of the two
//! collation element streams, with the code-point tie-break last.

use core::cmp::Ordering;
use crate::ascii::{fill_and_check, spec_fast};
use crate::cea::{generate_cea, spec_cea};
use crate::first_weight::{spec_try_initial, try_initial};
use crate::normalize::{make_nfd, spec_nfd};
use crate::order::{lex_cmp_u32, lex_compare_u32, slices_equal};
use crate::prefix::{spec_trim, trim_prefix};
use crate::sort_key::{compare_incremental, lemma_cmp_cut, spec_cmp};
use crate::tables::{Tables, TablesView};
use crate::types::{spec_is_cldr, Tailoring};
use vstd::prelude::*;

verus! {

/// A byte sequence read as code points.
pub open spec fn widen(s: Seq<u8>) -> Seq<u32> {
    Seq::new(s.len(), |i: int| s[i] as u32)
}

/// What the collator returns for two inputs under a configuration and a data
/// set.
pub open spec fn spec_collate(
    a: Seq<u32>,
    b: Seq<u32>,
    cldr: bool,
    shifting: bool,
    tiebreak: bool,
    tv: TablesView,
) -> Ordering {
    if a == b {
        Ordering::Equal
    } else {
        match spec_fast(a, b, tiebreak) {
            Some(o) => o,
            None => {
                let an = spec_nfd(a, tv.decomp);
                let bn = spec_nfd(b, tv.decomp);
                if an == bn {
                    if tiebreak {
                        lex_cmp_u32(a, b)
                    } else {
                        Ordering::Equal
                    }
                } else {
                    let trimmed = spec_trim(an, bn, shifting, tv);
                    if trimmed.0.len() == 0 || trimmed.1.len() == 0 {
                        lex_cmp_u32(trimmed.0, trimmed.1)
                    } else {
                        match spec_try_initial(trimmed.0, trimmed.1, shifting, tv) {
                            Some(o) => o,
                            None => {
                                let r = spec_cmp(
                                    spec_cea(trimmed.0, shifting, cldr, tv),
                                    spec_cea(trimmed.1, shifting, cldr, tv),
                                    shifting,
                                );
                                if r == Ordering::Equal && tiebreak {
                                    lex_cmp_u32(a, b)
                                } else {
                                    r
                                }
                            },
                        }
                    }
                }
            },
        }
    }
}

/// Configuration plus reusable scratch state. One instance serves one caller
/// at a time: the scratch buffers are reused across calls and must not be
/// shared between concurrent callers.
pub struct Collator {
    /// Which table set and contraction behaviour the collator follows.
    pub tailoring: Tailoring,
    /// Whether variable weights are shifted to the quaternary level.
    pub shifting: bool,
    /// Whether ties fall back to raw code-point order.
    pub tiebreak: bool,
    /// The weight data the engine consults.
    pub tables: Tables,
    /// Scratch buffer for the first operand's normalized code points.
    pub a_chars: Vec<u32>,
    /// Scratch buffer for the second operand's normalized code points.
    pub b_chars: Vec<u32>,
    /// Scratch buffer for the first operand's collation elements.
    pub a_cea: Vec<u32>,
    /// Scratch buffer for the second operand's collation elements.
    pub b_cea: Vec<u32>,
}

impl Collator {
    /// A collator with the given configuration and no weight data yet: the
    /// data set is installed separately, once the embedding runtime has
    /// loaded it.
    pub fn new(tailoring: Tailoring, shifting: bool, tiebreak: bool) -> (c: Collator)
        ensures
            c.tailoring == tailoring,
            c.shifting == shifting,
            c.tiebreak == tiebreak,
            c.tables@.low == Map::<u32, u32>::empty(),
            c.tables@.singles == Map::<u32, Seq<u32>>::empty(),
            c.tables@.multis == Map::<Seq<u32>, Seq<u32>>::empty(),
            c.tables@.decomp == Map::<u32, Seq<u32>>::empty(),
            c.tables@.need_two == Seq::<u32>::empty(),
            c.tables@.need_three == Seq::<u32>::empty(),
            c.tables@.variable == Seq::<u32>::empty(),
            c.tables@.unassigned == Seq::<u32>::empty(),
    {
        Collator {
            tailoring,
            shifting,
            tiebreak,
            tables: Tables::new(),
            a_chars: Vec::new(),
            b_chars: Vec::new(),
            a_cea: Vec::new(),
            b_cea: Vec::new(),
        }
    }

    /// Installs a loaded data set.
    pub fn set_tables(&mut self, tables: Tables)
        ensures
            final (self).tables == tables,
            final (self).tailoring == old(self).tailoring,
            final (self).shifting == old(self).shifting,
            final (self).tiebreak == old(self).tiebreak,
    {
        self.tables = tables;
    }

    /// Compares two byte strings (each byte read as a code point).
    pub fn collate_u8(&mut self, a: &[u8], b: &[u8]) -> (r: Ordering)
        ensures
            r == spec_collate(
                widen(a@),
                widen(b@),
                spec_is_cldr(old(self).tailoring),
                old(self).shifting,
                old(self).tiebreak,
                old(self).tables@,
            ),
            final (self).tailoring == old(self).tailoring,
            final (self).shifting == old(self).shifting,
            final (self).tiebreak == old(self).tiebreak,
            final (self).tables == old(self).tables,
    {
        let a32 = widen_exec(a);
        let b32 = widen_exec(b);
        self.collate_u32(a32.as_slice(), b32.as_slice())
    }

    /// Compares two code-point sequences under this collator's configuration.
    pub fn collate_u32(&mut self, a: &[u32], b: &[u32]) -> (r: Ordering)
        ensures
            r == spec_collate(
                a@,
                b@,
                spec_is_cldr(old(self).tailoring),
                old(self).shifting,
                old(self).tiebreak,
                old(self).tables@,
            ),
            final (self).tailoring == old(self).tailoring,
            final (self).shifting == old(self).shifting,
            final (self).tiebreak == old(self).tiebreak,
            final (self).tables == old(self).tables,
    {
        let ghost cldr = spec_is_cldr(self.tailoring);
        let ghost tv = self.tables@;
        let shifting = self.shifting;
        let tiebreak = self.tiebreak;
        let tailoring = self.tailoring;
        if slices_equal(a, b) {
            return Ordering::Equal;
        }
        self.a_chars.clear();
        self.b_chars.clear();
        if let Some(o) = fill_and_check(a, b, &mut self.a_chars, &mut self.b_chars, tiebreak) {
            return o;
        }
        proof {
            assert(self.a_chars@ =~= a@);
            assert(self.b_chars@ =~= b@);
        }
        make_nfd(&mut self.a_chars, &self.tables.decomp);
        make_nfd(&mut self.b_chars, &self.tables.decomp);
        let ghost an = spec_nfd(a@, tv.decomp);
        let ghost bn = spec_nfd(b@, tv.decomp);
        if slices_equal(self.a_chars.as_slice(), self.b_chars.as_slice()) {
            if tiebreak {
                return lex_compare_u32(a, b);
            }
            return Ordering::Equal;
        }
        trim_prefix(&mut self.a_chars, &mut self.b_chars, shifting, &self.tables);
        let ghost trimmed = spec_trim(an, bn, shifting, tv);
        if self.a_chars.len() == 0 || self.b_chars.len() == 0 {
            return lex_compare_u32(self.a_chars.as_slice(), self.b_chars.as_slice());
        }
        if let Some(o) = try_initial(self, self.a_chars.as_slice(), self.b_chars.as_slice()) {
            return o;
        }
        generate_cea(&mut self.a_cea, &mut self.a_chars, shifting, tailoring, &self.tables);
        generate_cea(&mut self.b_cea, &mut self.b_chars, shifting, tailoring, &self.tables);
        proof {
            lemma_cmp_cut(
                self.a_cea@,
                spec_cea(trimmed.0, shifting, cldr, tv),
                self.b_cea@,
                spec_cea(trimmed.1, shifting, cldr, tv),
                shifting,
            );
        }
        let comparison = compare_incremental(self.a_cea.as_slice(), self.b_cea.as_slice(), shifting);
        if matches!(comparison, Ordering::Equal) && tiebreak {
            return lex_compare_u32(a, b);
        }
        comparison
    }
}

/// Reads a byte slice as code points.
fn widen_exec(s: &[u8]) -> (out: Vec<u32>)
    ensures
        out@ == widen(s@),
{
    let mut out: Vec<u32> = Vec::new();
    let mut i: usize = 0;
    while i < s.len()
        invariant
            i <= s@.len(),
            out@ == widen(s@).take(i as int),
        decreases s@.len() - i,
    {
        out.push(s[i] as u32);
        proof {
            assert(widen(s@).take(i + 1) =~= widen(s@).take(i as int).push(s@[i as int] as u32));
        }
        i += 1;
    }
    proof {
        assert(widen(s@).take(s@.len() as int) =~= widen(s@));
    }
    out
}

} // verus!
