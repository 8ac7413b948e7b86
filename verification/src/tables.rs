//! The weight-table provider. The collation data proper — low-code-point
//! weights, single-code-point rows, contraction rows, canonical
//! decompositions, and the contraction-trigger and variable-weight sets — is
//! versioned Unicode data supplied by the caller; this module holds it in
//! immutable-after-construction maps and gives the engine a mathematical view
//! of the contents.
//!
//! The maps are `hashbrown::HashMap`s. Verus cannot see inside them, so each
//! is held in a struct opaque to the verifier, its contents named by an
//! uninterpreted map, and its operations specified against the names.

use vstd::prelude::*;

verus! {

/// Weights for code points below the low threshold, one packed word each.
#[verifier::external_body]
pub struct LowTable {
    map: hashbrown::HashMap<u32, u32>,
}

/// What a `LowTable` holds: its code point to packed-weight mapping.
pub uninterp spec fn low_entries(t: LowTable) -> Map<u32, u32>;

impl LowTable {
    /// Relies on hashbrown::HashMap::new: a new map is empty.
    #[verifier::external_body]
    pub fn new() -> (t: LowTable)
        ensures
            forall|k: u32| !(#[trigger] low_entries(t).contains_key(k)),
    {
        LowTable { map: hashbrown::HashMap::new() }
    }

    /// Relies on hashbrown::HashMap::insert: the key maps to the new value,
    /// every other key is untouched.
    #[verifier::external_body]
    pub fn insert(&mut self, k: u32, w: u32)
        ensures
            low_entries(*final(self)) == low_entries(*old(self)).insert(k, w),
    {
        self.map.insert(k, w);
    }

    /// Relies on hashbrown::HashMap::get: the value stored under the key, if
    /// the key is present.
    #[verifier::external_body]
    pub fn get(&self, k: u32) -> (r: Option<u32>)
        ensures
            match r {
                Some(w) => low_entries(*self).contains_key(k) && w == low_entries(*self)[k],
                None => !low_entries(*self).contains_key(k),
            },
    {
        self.map.get(&k).copied()
    }

    /// Relies on hashbrown::HashMap's Extend impl: every entry of `other` is
    /// inserted, replacing the entry under an equal key.
    #[verifier::external_body]
    pub fn extend_with(&mut self, other: LowTable)
        ensures
            low_entries(*final(self)) == low_entries(*old(self)).union_prefer_right(
                low_entries(other),
            ),
    {
        self.map.extend(other.map);
    }
}

/// Weight rows for single code points (and canonical decompositions, which
/// have the same shape).
#[verifier::external_body]
pub struct SinglesTable {
    map: hashbrown::HashMap<u32, Vec<u32>>,
}

/// What a `SinglesTable` holds: its code point to row mapping.
pub uninterp spec fn singles_entries(t: SinglesTable) -> Map<u32, Seq<u32>>;

impl SinglesTable {
    /// Relies on hashbrown::HashMap::new: a new map is empty.
    #[verifier::external_body]
    pub fn new() -> (t: SinglesTable)
        ensures
            forall|k: u32| !(#[trigger] singles_entries(t).contains_key(k)),
    {
        SinglesTable { map: hashbrown::HashMap::new() }
    }

    /// Relies on hashbrown::HashMap::insert: the key maps to the new value,
    /// every other key is untouched.
    #[verifier::external_body]
    pub fn insert(&mut self, k: u32, row: Vec<u32>)
        ensures
            singles_entries(*final(self)) == singles_entries(*old(self)).insert(k, row@),
    {
        self.map.insert(k, row);
    }

    /// Relies on hashbrown::HashMap::get: the value stored under the key, if
    /// the key is present.
    #[verifier::external_body]
    pub fn get(&self, k: u32) -> (r: Option<&Vec<u32>>)
        ensures
            match r {
                Some(row) => singles_entries(*self).contains_key(k) && row@ == singles_entries(
                    *self,
                )[k],
                None => !singles_entries(*self).contains_key(k),
            },
    {
        self.map.get(&k)
    }

    /// Relies on hashbrown::HashMap's Extend impl: every entry of `other` is
    /// inserted, replacing the entry under an equal key.
    #[verifier::external_body]
    pub fn extend_with(&mut self, other: SinglesTable)
        ensures
            singles_entries(*final(self)) == singles_entries(*old(self)).union_prefer_right(
                singles_entries(other),
            ),
    {
        self.map.extend(other.map);
    }
}

/// Weight rows for contractions: fixed sequences of code points that collate
/// as one unit.
#[verifier::external_body]
pub struct MultisTable {
    map: hashbrown::HashMap<Vec<u32>, Vec<u32>>,
}

/// What a `MultisTable` holds: its code-point-sequence to row mapping.
pub uninterp spec fn multis_entries(t: MultisTable) -> Map<Seq<u32>, Seq<u32>>;

impl MultisTable {
    /// Relies on hashbrown::HashMap::new: a new map is empty.
    #[verifier::external_body]
    pub fn new() -> (t: MultisTable)
        ensures
            forall|k: Seq<u32>| !(#[trigger] multis_entries(t).contains_key(k)),
    {
        MultisTable { map: hashbrown::HashMap::new() }
    }

    /// Relies on hashbrown::HashMap::insert: the key maps to the new value,
    /// every other key is untouched.
    #[verifier::external_body]
    pub fn insert(&mut self, k: Vec<u32>, row: Vec<u32>)
        ensures
            multis_entries(*final(self)) == multis_entries(*old(self)).insert(k@, row@),
    {
        self.map.insert(k, row);
    }

    /// Relies on hashbrown::HashMap::get with a borrowed slice key (slices are
    /// Equivalent to Vec keys): the value stored under the key, if present.
    #[verifier::external_body]
    pub fn get(&self, k: &[u32]) -> (r: Option<&Vec<u32>>)
        ensures
            match r {
                Some(row) => multis_entries(*self).contains_key(k@) && row@ == multis_entries(
                    *self,
                )[k@],
                None => !multis_entries(*self).contains_key(k@),
            },
    {
        self.map.get(k)
    }

    /// Relies on hashbrown::HashMap's Extend impl: every entry of `other` is
    /// inserted, replacing the entry under an equal key.
    #[verifier::external_body]
    pub fn extend_with(&mut self, other: MultisTable)
        ensures
            multis_entries(*final(self)) == multis_entries(*old(self)).union_prefer_right(
                multis_entries(other),
            ),
    {
        self.map.extend(other.map);
    }
}

/// The full data set one tailoring works from.
pub struct Tables {
    /// Packed weights for the dense low-code-point fast path.
    pub low: LowTable,
    /// Weight rows for single code points.
    pub singles: SinglesTable,
    /// Weight rows for contractions.
    pub multis: MultisTable,
    /// Full canonical decompositions of decomposable code points.
    pub decomp: SinglesTable,
    /// Code points that can open a two-code-point contraction.
    pub need_two: Vec<u32>,
    /// Code points that can open a three-code-point contraction.
    pub need_three: Vec<u32>,
    /// Code points whose weights are variable (shift-eligible).
    pub variable: Vec<u32>,
    /// Unassigned code points inside otherwise implicit-weighted blocks.
    pub unassigned: Vec<u32>,
}

/// The mathematical contents of a `Tables`.
pub ghost struct TablesView {
    pub low: Map<u32, u32>,
    pub singles: Map<u32, Seq<u32>>,
    pub multis: Map<Seq<u32>, Seq<u32>>,
    pub decomp: Map<u32, Seq<u32>>,
    pub need_two: Seq<u32>,
    pub need_three: Seq<u32>,
    pub variable: Seq<u32>,
    pub unassigned: Seq<u32>,
}

impl View for Tables {
    type V = TablesView;

    open spec fn view(&self) -> TablesView {
        TablesView {
            low: low_entries(self.low),
            singles: singles_entries(self.singles),
            multis: multis_entries(self.multis),
            decomp: singles_entries(self.decomp),
            need_two: self.need_two@,
            need_three: self.need_three@,
            variable: self.variable@,
            unassigned: self.unassigned@,
        }
    }
}

impl Tables {
    /// An empty data set: nothing is tabulated, nothing decomposes, no code
    /// point triggers a contraction.
    pub fn new() -> (t: Tables)
        ensures
            t@.low == Map::<u32, u32>::empty(),
            t@.singles == Map::<u32, Seq<u32>>::empty(),
            t@.multis == Map::<Seq<u32>, Seq<u32>>::empty(),
            t@.decomp == Map::<u32, Seq<u32>>::empty(),
            t@.need_two == Seq::<u32>::empty(),
            t@.need_three == Seq::<u32>::empty(),
            t@.variable == Seq::<u32>::empty(),
            t@.unassigned == Seq::<u32>::empty(),
    {
        Tables {
            low: LowTable::new(),
            singles: SinglesTable::new(),
            multis: MultisTable::new(),
            decomp: SinglesTable::new(),
            need_two: Vec::new(),
            need_three: Vec::new(),
            variable: Vec::new(),
            unassigned: Vec::new(),
        }
    }

    /// Layers a script-specific extension over this data set: extension rows
    /// override or augment the root rows under the same key, and the
    /// membership sets are concatenated.
    pub fn merge_extension(&mut self, ext: Tables)
        ensures
            final (self)@.low == old(self)@.low.union_prefer_right(ext@.low),
            final (self)@.singles == old(self)@.singles.union_prefer_right(ext@.singles),
            final (self)@.multis == old(self)@.multis.union_prefer_right(ext@.multis),
            final (self)@.decomp == old(self)@.decomp.union_prefer_right(ext@.decomp),
            final (self)@.need_two == old(self)@.need_two + ext@.need_two,
            final (self)@.need_three == old(self)@.need_three + ext@.need_three,
            final (self)@.variable == old(self)@.variable + ext@.variable,
            final (self)@.unassigned == old(self)@.unassigned + ext@.unassigned,
    {
        let Tables { low, singles, multis, decomp, mut need_two, mut need_three, mut variable, mut unassigned } =
            ext;
        self.low.extend_with(low);
        self.singles.extend_with(singles);
        self.multis.extend_with(multis);
        self.decomp.extend_with(decomp);
        self.need_two.append(&mut need_two);
        self.need_three.append(&mut need_three);
        self.variable.append(&mut variable);
        self.unassigned.append(&mut unassigned);
    }
}

/// Whether a plain list of code points contains the given one.
pub fn set_contains(v: &Vec<u32>, x: u32) -> (r: bool)
    ensures
        r == v@.contains(x),
{
    let mut i: usize = 0;
    while i < v.len()
        invariant
            i <= v@.len(),
            forall|k: int| 0 <= k < i ==> v@[k] != x,
        decreases v@.len() - i,
    {
        if v[i] == x {
            return true;
        }
        i += 1;
    }
    false
}

} // verus!
