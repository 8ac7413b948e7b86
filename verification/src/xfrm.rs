//! The sort-key builder. A sort key is the weight stream serialized level by
//! level — all nonzero primaries, a zero separator, all nonzero secondaries,
//! another separator, the tertiaries, and (in shifted mode) the quaternaries
//! — with trailing zero units removed. Plain lexicographic comparison of two
//! such keys reproduces the multi-level comparator's verdict; the byte form
//! stores each unit as two big-endian bytes, which preserves that order.

use crate::ascii::fill;
use crate::cea::{generate_cea, spec_cea};
use crate::collate::widen;
use crate::normalize::{make_nfd, spec_nfd};
use crate::sort_key::{proj, sproj, Level};
use crate::tables::{Tables, TablesView};
use crate::types::{spec_is_cldr, Tailoring};
use vstd::prelude::*;

verus! {

/// The serialized key units of a weight stream: the level projections joined
/// by zero separators.
pub open spec fn key_units(stream: Seq<u32>, shifting: bool) -> Seq<u16> {
    if shifting {
        proj(stream, Level::PrimaryShifted) + seq![0u16] + proj(stream, Level::Secondary) + seq![
            0u16,
        ] + proj(stream, Level::Tertiary) + seq![0u16] + proj(stream, Level::Quaternary)
    } else {
        proj(stream, Level::Primary) + seq![0u16] + proj(stream, Level::Secondary) + seq![0u16]
            + proj(stream, Level::Tertiary)
    }
}

/// A sequence with its trailing zeros removed.
pub open spec fn trim_zeros(s: Seq<u16>) -> Seq<u16>
    decreases s.len(),
{
    if s.len() == 0 {
        s
    } else if s.last() == 0 {
        trim_zeros(s.drop_last())
    } else {
        s
    }
}

/// The sort key of an input under a configuration and a data set: the input
/// is normalized, its weight stream generated, and the stream serialized.
pub open spec fn spec_sortkey(s: Seq<u32>, shifting: bool, cldr: bool, tv: TablesView) -> Seq<
    u16,
> {
    trim_zeros(key_units(spec_cea(spec_nfd(s, tv.decomp), shifting, cldr, tv), shifting))
}

/// The high byte of a key unit.
pub open spec fn unit_hi(v: u16) -> u8 {
    (v >> 8) as u8
}

/// The low byte of a key unit.
pub open spec fn unit_lo(v: u16) -> u8 {
    (v & 0xFF) as u8
}

/// Key units serialized as big-endian byte pairs.
pub open spec fn bytes_of(s: Seq<u16>) -> Seq<u8>
    decreases s.len(),
{
    if s.len() == 0 {
        Seq::empty()
    } else {
        bytes_of(s.drop_last()) + seq![unit_hi(s.last()), unit_lo(s.last())]
    }
}

/// Same configuration surface as the collator, producing serialized keys
/// instead of comparison results.
pub struct SortKey {
    /// Which table set and contraction behaviour the builder follows.
    pub tailoring: Tailoring,
    /// Whether variable weights are shifted to the quaternary level.
    pub shifting: bool,
    /// Whether the paired collator would tie-break; keys themselves cannot
    /// carry the code-point tie-break.
    pub tiebreak: bool,
    /// The weight data the engine consults.
    pub tables: Tables,
    /// Scratch buffer for the normalized code points.
    pub s_chars: Vec<u32>,
    /// Scratch buffer for the collation elements.
    pub s_cea: Vec<u32>,
}

impl SortKey {
    /// A sort-key builder with the given configuration and no weight data
    /// yet.
    pub fn new(tailoring: Tailoring, shifting: bool, tiebreak: bool) -> (k: SortKey)
        ensures
            k.tailoring == tailoring,
            k.shifting == shifting,
            k.tiebreak == tiebreak,
            k.tables@.low == Map::<u32, u32>::empty(),
            k.tables@.singles == Map::<u32, Seq<u32>>::empty(),
            k.tables@.multis == Map::<Seq<u32>, Seq<u32>>::empty(),
            k.tables@.decomp == Map::<u32, Seq<u32>>::empty(),
            k.tables@.need_two == Seq::<u32>::empty(),
            k.tables@.need_three == Seq::<u32>::empty(),
            k.tables@.variable == Seq::<u32>::empty(),
            k.tables@.unassigned == Seq::<u32>::empty(),
    {
        SortKey {
            tailoring,
            shifting,
            tiebreak,
            tables: Tables::new(),
            s_chars: Vec::new(),
            s_cea: Vec::new(),
        }
    }

    /// Installs a loaded data set.
    pub fn set_tables(&mut self, tables: Tables)
        ensures
            final (self).tables == tables,
            final (self).tailoring == old(self).tailoring,
            final (self).shifting == old(self).shifting,
            final (self).tiebreak == old(self).tiebreak,
    {
        self.tables = tables;
    }

    /// The sort key of a code-point sequence, one unit per word.
    pub fn get_sortkey_u32(&mut self, s: &[u32]) -> (key: Vec<u32>)
        ensures
            key@ == spec_sortkey(
                s@,
                old(self).shifting,
                spec_is_cldr(old(self).tailoring),
                old(self).tables@,
            ).map_values(|v: u16| v as u32),
            final (self).tailoring == old(self).tailoring,
            final (self).shifting == old(self).shifting,
            final (self).tiebreak == old(self).tiebreak,
            final (self).tables == old(self).tables,
    {
        let units = self.sortkey_units(s);
        let mut out: Vec<u32> = Vec::new();
        let mut i: usize = 0;
        proof {
            assert(units@.map_values(|v: u16| v as u32).take(0) =~= Seq::<u32>::empty());
        }
        while i < units.len()
            invariant
                i <= units@.len(),
                out@ == units@.map_values(|v: u16| v as u32).take(i as int),
            decreases units@.len() - i,
        {
            out.push(units[i] as u32);
            proof {
                assert(units@.map_values(|v: u16| v as u32).take(i + 1) =~= units@.map_values(
                    |v: u16| v as u32,
                ).take(i as int).push(units@[i as int] as u32));
            }
            i += 1;
        }
        proof {
            assert(units@.map_values(|v: u16| v as u32).take(units@.len() as int) =~= units@
                .map_values(|v: u16| v as u32));
        }
        out
    }

    /// The sort key of a byte string (each byte read as a code point), as
    /// big-endian byte pairs.
    pub fn get_sortkey_u8(&mut self, s: &[u8]) -> (key: Vec<u8>)
        ensures
            key@ == bytes_of(
                spec_sortkey(
                    widen(s@),
                    old(self).shifting,
                    spec_is_cldr(old(self).tailoring),
                    old(self).tables@,
                ),
            ),
            final (self).tailoring == old(self).tailoring,
            final (self).shifting == old(self).shifting,
            final (self).tiebreak == old(self).tiebreak,
            final (self).tables == old(self).tables,
    {
        let mut s32: Vec<u32> = Vec::new();
        let mut i: usize = 0;
        proof {
            assert(widen(s@).take(0) =~= Seq::<u32>::empty());
        }
        while i < s.len()
            invariant
                i <= s@.len(),
                s32@ == widen(s@).take(i as int),
            decreases s@.len() - i,
        {
            s32.push(s[i] as u32);
            proof {
                assert(widen(s@).take(i + 1) =~= widen(s@).take(i as int).push(
                    s@[i as int] as u32,
                ));
            }
            i += 1;
        }
        proof {
            assert(widen(s@).take(s@.len() as int) =~= widen(s@));
        }
        let units = self.sortkey_units(s32.as_slice());
        let mut out: Vec<u8> = Vec::new();
        let mut k: usize = 0;
        proof {
            assert(bytes_of(units@.take(0)) =~= Seq::<u8>::empty());
        }
        while k < units.len()
            invariant
                k <= units@.len(),
                out@ == bytes_of(units@.take(k as int)),
            decreases units@.len() - k,
        {
            let v = units[k];
            out.push((v >> 8) as u8);
            out.push((v & 0xFF) as u8);
            proof {
                assert(v >> 8 < 256) by (bit_vector);
                assert(v & 0xFF < 256) by (bit_vector);
                assert(units@.take(k + 1).drop_last() =~= units@.take(k as int));
                assert(units@.take(k + 1).last() == units@[k as int]);
                assert(bytes_of(units@.take(k as int)) + seq![
                    unit_hi(units@[k as int]),
                    unit_lo(units@[k as int]),
                ] =~= bytes_of(units@.take(k as int)).push(unit_hi(units@[k as int])).push(
                    unit_lo(units@[k as int]),
                ));
            }
            k += 1;
        }
        proof {
            assert(units@.take(units@.len() as int) =~= units@);
        }
        out
    }

    /// Runs the full pipeline and returns the trimmed key units.
    fn sortkey_units(&mut self, s: &[u32]) -> (units: Vec<u16>)
        ensures
            units@ == spec_sortkey(
                s@,
                old(self).shifting,
                spec_is_cldr(old(self).tailoring),
                old(self).tables@,
            ),
            final (self).tailoring == old(self).tailoring,
            final (self).shifting == old(self).shifting,
            final (self).tiebreak == old(self).tiebreak,
            final (self).tables == old(self).tables,
    {
        let ghost tv = self.tables@;
        let ghost cldr = spec_is_cldr(self.tailoring);
        let shifting = self.shifting;
        let tailoring = self.tailoring;
        self.s_chars.clear();
        fill(s, &mut self.s_chars);
        proof {
            assert(self.s_chars@ =~= s@);
        }
        make_nfd(&mut self.s_chars, &self.tables.decomp);
        generate_cea(&mut self.s_cea, &mut self.s_chars, shifting, tailoring, &self.tables);
        let ghost stream = spec_cea(spec_nfd(s@, tv.decomp), shifting, cldr, tv);
        proof {
            crate::sort_key::lemma_sproj_cut(self.s_cea@, stream, Level::Primary, 0);
            crate::sort_key::lemma_sproj_cut(self.s_cea@, stream, Level::PrimaryShifted, 0);
            crate::sort_key::lemma_sproj_cut(self.s_cea@, stream, Level::Secondary, 0);
            crate::sort_key::lemma_sproj_cut(self.s_cea@, stream, Level::Tertiary, 0);
            crate::sort_key::lemma_sproj_cut(self.s_cea@, stream, Level::Quaternary, 0);
        }
        let mut units: Vec<u16> = Vec::new();
        if shifting {
            append_level(self.s_cea.as_slice(), Level::PrimaryShifted, &mut units);
            units.push(0);
            append_level(self.s_cea.as_slice(), Level::Secondary, &mut units);
            units.push(0);
            append_level(self.s_cea.as_slice(), Level::Tertiary, &mut units);
            units.push(0);
            append_level(self.s_cea.as_slice(), Level::Quaternary, &mut units);
            proof {
                assert(units@ =~= key_units(self.s_cea@, shifting));
            }
        } else {
            append_level(self.s_cea.as_slice(), Level::Primary, &mut units);
            units.push(0);
            append_level(self.s_cea.as_slice(), Level::Secondary, &mut units);
            units.push(0);
            append_level(self.s_cea.as_slice(), Level::Tertiary, &mut units);
            proof {
                assert(units@ =~= key_units(self.s_cea@, shifting));
            }
        }
        proof {
            assert(key_units(self.s_cea@, shifting) =~= key_units(stream, shifting));
        }
        while units.len() > 0 && units[units.len() - 1] == 0
            invariant
                trim_zeros(key_units(stream, shifting)) == trim_zeros(units@),
            decreases units@.len(),
        {
            let ghost pre = units@;
            units.pop();
            proof {
                assert(units@ =~= pre.drop_last());
            }
        }
        proof {
            assert(trim_zeros(units@) == units@);
        }
        units
    }
}

/// Appends one level's nonzero projection to the key units.
fn append_level(cea: &[u32], l: Level, units: &mut Vec<u16>)
    ensures
        final (units)@ == old(units)@ + proj(cea@, l),
{
    let mut i: usize = 0;
    proof {
        assert(old(units)@ + proj(cea@, l) =~= old(units)@ + sproj(cea@, 0, l));
    }
    loop
        invariant
            old(units)@ + proj(cea@, l) == units@ + sproj(cea@, i as int, l),
        ensures
            final (units)@ == old(units)@ + proj(cea@, l),
        decreases cea@.len() - i + 1,
    {
        let (ni, v) = crate::sort_key::level_scan(cea, i, l);
        if v == 0 {
            proof {
                assert(units@ + sproj(cea@, i as int, l) =~= units@);
            }
            break ;
        }
        let ghost ub = units@;
        units.push(v);
        proof {
            assert(ub + (seq![v] + sproj(cea@, ni as int, l)) =~= ub.push(v) + sproj(
                cea@,
                ni as int,
                l,
            ));
        }
        i = ni;
    }
}

/// Copies the sort key of `src` and a terminating zero into `dest` when they
/// fit, and in every case reports the key's true byte length, so a caller can
/// retry with a buffer of the reported length plus one.
pub fn strxfrm(key: &mut SortKey, dest: &mut Vec<u8>, src: &[u8]) -> (n: usize)
    ensures
        ({
            let kb = bytes_of(
                spec_sortkey(
                    widen(src@),
                    old(key).shifting,
                    spec_is_cldr(old(key).tailoring),
                    old(key).tables@,
                ),
            );
            &&& n == kb.len()
            &&& final (dest)@.len() == old(dest)@.len()
            &&& (kb.len() < old(dest)@.len() ==> final (dest)@ == kb + seq![0u8] + old(dest)@.skip(
                kb.len() as int + 1,
            ))
            &&& (kb.len() >= old(dest)@.len() ==> final (dest)@ == old(dest)@)
        }),
        final (key).tailoring == old(key).tailoring,
        final (key).shifting == old(key).shifting,
        final (key).tiebreak == old(key).tiebreak,
        final (key).tables == old(key).tables,
{
    let k = key.get_sortkey_u8(src);
    let n = k.len();
    if n < dest.len() {
        let mut i: usize = 0;
        proof {
            assert(dest@.take(0) =~= k@.take(0));
            assert(dest@.skip(0) =~= dest@);
            assert(old(dest)@.skip(0) =~= old(dest)@);
        }
        while i < n
            invariant
                i <= n,
                n == k@.len(),
                n < dest@.len(),
                dest@.len() == old(dest)@.len(),
                dest@.take(i as int) == k@.take(i as int),
                dest@.skip(i as int) == old(dest)@.skip(i as int),
            decreases n - i,
        {
            let ghost pre = dest@;
            dest[i] = k[i];
            proof {
                assert(dest@.take(i + 1) =~= pre.take(i as int).push(k@[i as int]));
                assert(k@.take(i + 1) =~= k@.take(i as int).push(k@[i as int]));
                assert(dest@.skip(i + 1) =~= pre.skip(i as int).skip(1));
                assert(old(dest)@.skip(i as int).skip(1) =~= old(dest)@.skip(i + 1));
            }
            i += 1;
        }
        let ghost pre = dest@;
        dest[n] = 0;
        proof {
            assert(pre.take(n as int) == k@.take(n as int));
            assert(k@.take(n as int) =~= k@);
            let fin = dest@;
            let rhs = k@ + seq![0u8] + old(dest)@.skip(n as int + 1);
            assert forall|j: int| 0 <= j < fin.len() implies fin[j] == rhs[j] by {
                if j < n {
                    assert(pre.take(n as int)[j] == k@.take(n as int)[j]);
                } else if j > n {
                    assert(pre.skip(n as int)[j - n] == old(dest)@.skip(n as int)[j - n]);
                    assert(old(dest)@.skip(n as int)[j - n] == old(dest)@[j]);
                    assert(old(dest)@.skip(n as int + 1)[j - n - 1] == old(dest)@[j]);
                }
            }
            assert(fin =~= rhs);
        }
    }
    n
}

} // verus!
