//! A locale-aware string collation engine: the logic behind `strcoll` and
//! `strxfrm`. Two sequences of Unicode scalar values are compared under the
//! multi-level Unicode Collation Algorithm (primary through quaternary
//! weights, contractions, discontiguous matches, implicit weights, and the
//! "shifted" treatment of variable weights), and a binary sort key can be
//! produced whose plain lexicographic order agrees with the comparison.
//!
//! The versioned collation data (weight tables, contraction sets, canonical
//! decompositions) is not part of the algorithm: it is supplied by the caller
//! through the [`tables::Tables`] builder.

pub mod ascii;
pub mod casemap;
pub mod cea;
pub mod cea_utils;
pub mod collate;
pub mod first_weight;
pub mod laws;
pub mod locale;
pub mod mbstate;
pub mod normalize;
pub mod order;
pub mod prefix;
pub mod sort_key;
pub mod tables;
pub mod types;
pub mod weights;
pub mod xfrm;
