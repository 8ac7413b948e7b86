use std::cmp::Ordering;
use uca_collate::collate::Collator;
use uca_collate::tables::Tables;
use uca_collate::types::{Locale, Tailoring};
use uca_collate::weights::pack_weights;
use uca_collate::xfrm::{strxfrm, SortKey};

fn root_collator(shifting: bool, tiebreak: bool) -> Collator {
    Collator::new(Tailoring::Cldr(Locale::Root), shifting, tiebreak)
}

#[test]
fn reflexivity_on_assorted_inputs() {
    let mut c = root_collator(true, true);
    assert_eq!(c.collate_u8(b"", b""), Ordering::Equal);
    assert_eq!(c.collate_u8(b"abc", b"abc"), Ordering::Equal);
    assert_eq!(c.collate_u32(&[0x1100, 0x301, 0x20000], &[0x1100, 0x301, 0x20000]), Ordering::Equal);
}

#[test]
fn antisymmetry_on_ascii_inputs() {
    let mut c = root_collator(true, true);
    assert_eq!(c.collate_u8(b"abc", b"abd"), Ordering::Less);
    assert_eq!(c.collate_u8(b"abd", b"abc"), Ordering::Greater);
    assert_eq!(c.collate_u8(b"ab", b"abc"), Ordering::Less);
    assert_eq!(c.collate_u8(b"abc", b"ab"), Ordering::Greater);
}

#[test]
fn transitivity_on_case_mixed_inputs() {
    // "a" < "A" by the case tie-break, "A" < "ab" by length, so "a" < "ab".
    let mut c = root_collator(true, true);
    assert_eq!(c.collate_u8(b"a", b"A"), Ordering::Less);
    assert_eq!(c.collate_u8(b"A", b"ab"), Ordering::Less);
    assert_eq!(c.collate_u8(b"a", b"ab"), Ordering::Less);
}

#[test]
fn determinism_of_repeated_calls() {
    let mut c = root_collator(true, true);
    let first = c.collate_u8(b"abc", b"ABC");
    let second = c.collate_u8(b"abc", b"ABC");
    assert_eq!(first, second);
    let mut k = SortKey::new(Tailoring::Ducet, false, false);
    let key1 = k.get_sortkey_u32(&[0x20000, 0x41]);
    let key2 = k.get_sortkey_u32(&[0x20000, 0x41]);
    assert_eq!(key1, key2);
}

#[test]
fn ascii_scenario_abc_abd() {
    let mut c = root_collator(true, true);
    assert_eq!(c.collate_u8(b"abc", b"abd"), Ordering::Less);
}

#[test]
fn case_scenario_tiebreak_modes() {
    // With the tie-break on, a pure case difference is decisive via the
    // ASCII fast path; with it off, the same inputs tie.
    let mut with_tb = root_collator(true, true);
    assert_eq!(with_tb.collate_u8(b"abc", b"ABC"), Ordering::Less);
    assert_eq!(with_tb.collate_u8(b"ABC", b"abc"), Ordering::Greater);
    let mut without_tb = root_collator(true, false);
    assert_eq!(without_tb.collate_u8(b"abc", b"ABC"), Ordering::Equal);
}

#[test]
fn sortkey_order_agrees_with_collation() {
    // Two code points weighted implicitly from different blocks: the
    // comparison and the serialized keys must order them alike.
    let mut c = Collator::new(Tailoring::Ducet, false, false);
    assert_eq!(c.collate_u32(&[0x20000], &[0x30000]), Ordering::Less);
    let mut k = SortKey::new(Tailoring::Ducet, false, false);
    let key_a = k.get_sortkey_u32(&[0x20000]);
    let key_b = k.get_sortkey_u32(&[0x30000]);
    assert!(key_a < key_b);
    let key_a8 = k.get_sortkey_u8(&[0xAA]);
    let key_b8 = k.get_sortkey_u8(&[0xAB]);
    let mut c8 = Collator::new(Tailoring::Ducet, false, false);
    assert_eq!(c8.collate_u8(&[0xAA], &[0xAB]), Ordering::Less);
    assert!(key_a8 < key_b8);
}

#[test]
fn sortkey_u32_exact_contents() {
    // One implicitly weighted code point: primaries, a separator, the
    // secondary, a separator, the tertiary.
    let mut k = SortKey::new(Tailoring::Ducet, false, false);
    let key = k.get_sortkey_u32(&[0x20000]);
    assert_eq!(key, vec![0xFB84, 0x8000, 0, 0x20, 0, 2]);
}

#[test]
fn truncation_scenario_reports_full_length() {
    let mut k = SortKey::new(Tailoring::Ducet, false, false);
    // '!' gets an implicit weight pair: six key units, twelve key bytes.
    let expected = vec![
        0xFB, 0xC0, 0x80, 0x21, 0x00, 0x00, 0x00, 0x20, 0x00, 0x00, 0x00, 0x02,
    ];
    let mut small = vec![0xAA; 5];
    let n = strxfrm(&mut k, &mut small, b"!");
    assert_eq!(n, 12);
    assert_eq!(small, vec![0xAA; 5]);
    let mut large = vec![0xAA; 14];
    let n2 = strxfrm(&mut k, &mut large, b"!");
    assert_eq!(n2, 12);
    assert_eq!(&large[..12], &expected[..]);
    assert_eq!(large[12], 0);
    assert_eq!(large[13], 0xAA);
}

fn read_stream(cea: &[u32]) -> Vec<u32> {
    let mut out = Vec::new();
    for &w in cea {
        if w == u32::MAX {
            break;
        }
        out.push(w);
    }
    out
}

#[test]
fn contraction_scenario_longest_window_first() {
    // The opener allows a three-code-point window; only the two-code-point
    // contraction is tabulated, and its row must still be emitted.
    let mut t = Tables::new();
    t.need_three.push(0x1100);
    let row = pack_weights(false, 0x1234, 0x20, 2);
    t.multis.insert(vec![0x1100, 0x1101], vec![row]);
    let mut cea: Vec<u32> = Vec::new();
    let mut chars = vec![0x1100, 0x1101, 0x41];
    uca_collate::cea::generate_cea(&mut cea, &mut chars, false, Tailoring::Ducet, &t);
    let stream = read_stream(&cea);
    assert_eq!(stream, vec![0x12340420, 0xFBC00420, 0x80410000]);
}

#[test]
fn discontiguous_contraction_pulls_mark_forward() {
    // A combining mark of lower class sits between the two contraction code
    // points; the match must skip it and consume the later code point.
    let mut t = Tables::new();
    t.need_two.push(0x1100);
    let row = pack_weights(false, 0x2345, 0x20, 2);
    t.multis.insert(vec![0x1100, 0x301], vec![row]);
    let mut cea: Vec<u32> = Vec::new();
    // 0x316 has combining class 220, 0x301 has 230: strictly increasing.
    let mut chars = vec![0x1100, 0x316, 0x301];
    uca_collate::cea::generate_cea(&mut cea, &mut chars, false, Tailoring::Ducet, &t);
    let stream = read_stream(&cea);
    assert_eq!(stream, vec![0x23450420, 0xFBC00420, 0x83160000]);
}

#[test]
fn low_table_weights_decide_full_path() {
    // Non-alphanumeric low code points dodge the fast path and are weighted
    // from the low table.
    let mut t = Tables::new();
    t.low.insert(0x21, pack_weights(false, 0x260, 0x20, 2));
    t.low.insert(0x23, pack_weights(false, 0x262, 0x20, 2));
    let mut c = Collator::new(Tailoring::Ducet, false, false);
    c.set_tables(t);
    assert_eq!(c.collate_u8(b"!", b"#"), Ordering::Less);
    assert_eq!(c.collate_u8(b"#", b"!"), Ordering::Greater);
}

#[test]
fn canonically_equivalent_inputs_tie_or_tiebreak() {
    // With a decomposition installed, a precomposed form and its decomposed
    // form normalize alike: equal without the tie-break, code-point order
    // with it.
    let mut t = Tables::new();
    t.decomp.insert(0xC0, vec![0x41, 0x300]);
    let mut c = Collator::new(Tailoring::Ducet, true, false);
    c.set_tables(t);
    assert_eq!(c.collate_u32(&[0xC0], &[0x41, 0x300]), Ordering::Equal);
    let mut t2 = Tables::new();
    t2.decomp.insert(0xC0, vec![0x41, 0x300]);
    let mut c2 = Collator::new(Tailoring::Ducet, true, true);
    c2.set_tables(t2);
    assert_eq!(c2.collate_u32(&[0xC0], &[0x41, 0x300]), Ordering::Greater);
    assert_eq!(c2.collate_u32(&[0x41, 0x300], &[0xC0]), Ordering::Less);
}

#[test]
fn shifted_variable_weights_drop_to_quaternary() {
    // A variable code point differs only at the quaternary level under
    // shifting, so a primary difference elsewhere dominates.
    let mut t = Tables::new();
    t.low.insert(0x21, pack_weights(true, 0x260, 0x20, 2));
    t.low.insert(0x23, pack_weights(true, 0x262, 0x20, 2));
    t.low.insert(0xB0, pack_weights(false, 0x400, 0x20, 2));
    t.low.insert(0xB1, pack_weights(false, 0x500, 0x20, 2));
    let mut c = Collator::new(Tailoring::Ducet, true, false);
    c.set_tables(t);
    // "!%" vs "#$": with the primaries shifted away, the nonvariable pair
    // decides; 0xB0 < 0xB1 regardless of the variable prefix.
    assert_eq!(c.collate_u32(&[0x23, 0xB0], &[0x21, 0xB1]), Ordering::Less);
    // Between all-variable strings only the quaternary level distinguishes.
    assert_eq!(c.collate_u32(&[0x21], &[0x23]), Ordering::Less);
}

#[test]
fn prefix_trim_keeps_contraction_openers() {
    let mut t = Tables::new();
    t.need_two.push(0x1100);
    let mut a = vec![0x41, 0x1100, 0x42];
    let mut b = vec![0x41, 0x1100, 0x43];
    uca_collate::prefix::trim_prefix(&mut a, &mut b, false, &t);
    assert_eq!(a, vec![0x1100, 0x42]);
    assert_eq!(b, vec![0x1100, 0x43]);
}

#[test]
fn prefix_trim_retracts_over_variable_boundary() {
    let mut t = Tables::new();
    t.variable.push(0x21);
    let mut a = vec![0x41, 0x21, 0x42];
    let mut b = vec![0x41, 0x21, 0x43];
    uca_collate::prefix::trim_prefix(&mut a, &mut b, true, &t);
    assert_eq!(a, vec![0x21, 0x42]);
    assert_eq!(b, vec![0x21, 0x43]);
    // Without shifting the whole common prefix goes.
    let mut t2 = Tables::new();
    t2.variable.push(0x21);
    let mut a2 = vec![0x41, 0x21, 0x42];
    let mut b2 = vec![0x41, 0x21, 0x43];
    uca_collate::prefix::trim_prefix(&mut a2, &mut b2, false, &t2);
    assert_eq!(a2, vec![0x42]);
    assert_eq!(b2, vec![0x43]);
}

#[test]
fn merged_extension_overrides_root_rows() {
    let mut root = Tables::new();
    root.singles.insert(0x1200, vec![pack_weights(false, 0x1000, 0x20, 2)]);
    root.singles.insert(0x1201, vec![pack_weights(false, 0x1001, 0x20, 2)]);
    let mut ext = Tables::new();
    ext.singles.insert(0x1200, vec![pack_weights(false, 0x2000, 0x20, 2)]);
    root.merge_extension(ext);
    let mut c = Collator::new(Tailoring::Cldr(Locale::ArabicScript), false, false);
    c.set_tables(root);
    // After the merge the extension row (primary 0x2000) outranks the root
    // row of the other code point (primary 0x1001).
    assert_eq!(c.collate_u32(&[0x1201], &[0x1200]), Ordering::Less);
}
