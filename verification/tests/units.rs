use std::cmp::Ordering;
use uca_collate::ascii::{fill, fill_and_check};
use uca_collate::casemap;
use uca_collate::cea_utils::{implicit_a, implicit_b};
use uca_collate::locale::is_posix_locale;
use uca_collate::mbstate::MBState;
use uca_collate::normalize::make_nfd;
use uca_collate::sort_key::compare_incremental;
use uca_collate::tables::{SinglesTable, Tables};
use uca_collate::weights::{
    pack_weights, primary, secondary, shift_weights, tertiary, variability,
};

#[test]
fn codec_round_trip() {
    let w = pack_weights(true, 0x1234, 0x155, 0x3F);
    assert_eq!(primary(w), 0x1234);
    assert_eq!(secondary(w), 0x155);
    assert_eq!(tertiary(w), 0x3F);
    assert!(variability(w));
    let v = pack_weights(false, 0xFFFF, 0, 0);
    assert_eq!(primary(v), 0xFFFF);
    assert_eq!(secondary(v), 0);
    assert_eq!(tertiary(v), 0);
    assert!(!variability(v));
}

#[test]
fn shift_transform_suppresses_after_variable() {
    let variable = pack_weights(true, 0x260, 0x20, 2);
    let ignorable = pack_weights(false, 0, 0x20, 2);
    let plain = pack_weights(false, 0x400, 0x20, 2);
    let mut lv = false;
    let shifted = shift_weights(variable, &mut lv);
    assert!(lv);
    assert_eq!(shifted, pack_weights(true, 0x260, 0, 0));
    // A primary-ignorable element right after a variable one vanishes.
    let suppressed = shift_weights(ignorable, &mut lv);
    assert!(lv);
    assert_eq!(suppressed, 0);
    // A plain element passes through and clears the state.
    let kept = shift_weights(plain, &mut lv);
    assert!(!lv);
    assert_eq!(kept, plain);
}

#[test]
fn implicit_weights_of_known_blocks() {
    let none: Vec<u32> = Vec::new();
    // Core CJK.
    assert_eq!(implicit_a(0x4E00, &none), 0xFB400420);
    assert_eq!(implicit_b(0x4E00, &none), 0xCE000000);
    // An untabulated Latin code point falls back to the default scheme.
    assert_eq!(implicit_a(0x41, &none), 0xFBC00420);
    assert_eq!(implicit_b(0x41, &none), 0x80410000);
    // A code point listed as unassigned uses the default scheme even inside
    // a named block.
    let unassigned = vec![0x4E00];
    assert_eq!(implicit_a(0x4E00, &unassigned), 0xFBC00420);
    assert_eq!(implicit_b(0x4E00, &unassigned), 0xCE000000);
}

#[test]
fn fast_path_walk_outcomes() {
    let mut a_chars = Vec::new();
    let mut b_chars = Vec::new();
    // Case-only difference with the tie-break on.
    let r = fill_and_check(&[0x61], &[0x41], &mut a_chars, &mut b_chars, true);
    assert_eq!(r, Some(Ordering::Less));
    assert_eq!(a_chars, vec![0x61]);
    assert_eq!(b_chars, vec![0x41]);
    // The same difference with the tie-break off ties.
    let mut a2 = Vec::new();
    let mut b2 = Vec::new();
    assert_eq!(fill_and_check(&[0x61], &[0x41], &mut a2, &mut b2, false), Some(Ordering::Equal));
    // A non-alphanumeric code point makes the walk abstain.
    let mut a3 = Vec::new();
    let mut b3 = Vec::new();
    assert_eq!(fill_and_check(&[0x61, 0x21], &[0x61, 0x62], &mut a3, &mut b3, true), None);
    assert_eq!(a3, vec![0x61, 0x21]);
    assert_eq!(b3, vec![0x61, 0x62]);
    // Length decides when one input is consumed first.
    let mut a4 = Vec::new();
    let mut b4 = Vec::new();
    assert_eq!(
        fill_and_check(&[0x61, 0x62], &[0x61], &mut a4, &mut b4, true),
        Some(Ordering::Greater)
    );
}

#[test]
fn fill_copies_everything() {
    let mut out = vec![7];
    fill(&[0x61, 0x21, 0xFF], &mut out);
    assert_eq!(out, vec![7, 0x61, 0x21, 0xFF]);
}

#[test]
fn nfd_reorders_marks_by_combining_class() {
    // acute (class 230) before grave-below (class 220) must swap.
    let empty = SinglesTable::new();
    let mut chars = vec![0x61, 0x301, 0x316];
    make_nfd(&mut chars, &empty);
    assert_eq!(chars, vec![0x61, 0x316, 0x301]);
    // Starters pin the runs: nothing moves across a class-zero code point.
    let mut chars2 = vec![0x301, 0x62, 0x316];
    make_nfd(&mut chars2, &empty);
    assert_eq!(chars2, vec![0x301, 0x62, 0x316]);
}

#[test]
fn nfd_applies_decompositions() {
    let mut decomp = SinglesTable::new();
    decomp.insert(0xC0, vec![0x41, 0x300]);
    let mut chars = vec![0xC0, 0x62];
    make_nfd(&mut chars, &decomp);
    assert_eq!(chars, vec![0x41, 0x300, 0x62]);
}

#[test]
fn comparator_walks_levels_in_order() {
    let max = u32::MAX;
    let w = |p: u16, s: u16, t: u16| pack_weights(false, p, s, t);
    // Secondary decides when primaries tie across the stream.
    let a = vec![w(0x100, 0x20, 2), max];
    let b = vec![w(0x100, 0x21, 2), max];
    assert_eq!(compare_incremental(&a, &b, false), Ordering::Less);
    // Tertiary decides when secondaries tie as well.
    let c = vec![w(0x100, 0x20, 2), max];
    let d = vec![w(0x100, 0x20, 8), max];
    assert_eq!(compare_incremental(&c, &d, false), Ordering::Less);
    // Zero weights are invisible at their level: a zero-primary element does
    // not block a later primary difference.
    let e = vec![w(0, 0x20, 2), w(0x200, 0x20, 2), max];
    let f = vec![w(0x100, 0x20, 2), w(0x100, 0x20, 2), max];
    assert_eq!(compare_incremental(&e, &f, false), Ordering::Greater);
    // Equal streams tie.
    assert_eq!(compare_incremental(&a, &a, false), Ordering::Equal);
}

#[test]
fn tables_lookup_and_merge() {
    let mut t = Tables::new();
    t.low.insert(0x21, 0x12345678);
    assert_eq!(t.low.get(0x21), Some(0x12345678));
    assert_eq!(t.low.get(0x22), None);
    t.singles.insert(0x1200, vec![1, 2]);
    assert_eq!(t.singles.get(0x1200).map(|r| r.clone()), Some(vec![1, 2]));
    t.multis.insert(vec![1, 2], vec![9]);
    assert_eq!(t.multis.get(&[1, 2]).map(|r| r.clone()), Some(vec![9]));
    assert_eq!(t.multis.get(&[1]), None);
    let mut ext = Tables::new();
    ext.low.insert(0x21, 0x1);
    ext.need_two.push(0x7);
    t.need_two.push(0x6);
    t.merge_extension(ext);
    assert_eq!(t.low.get(0x21), Some(0x1));
    assert_eq!(t.need_two, vec![0x6, 0x7]);
}

#[test]
fn ascii_case_maps() {
    assert_eq!(casemap::tolower(0x41), 0x61);
    assert_eq!(casemap::tolower(0x5A), 0x7A);
    assert_eq!(casemap::tolower(0x61), 0x61);
    assert_eq!(casemap::tolower(0x30), 0x30);
    assert_eq!(casemap::toupper(0x61), 0x41);
    assert_eq!(casemap::toupper(0x7A), 0x5A);
    assert_eq!(casemap::toupper(0x41), 0x41);
    assert_eq!(casemap::toupper(0xE9), 0xE9);
}

#[test]
fn ascii_classifications() {
    assert!(casemap::isalnum(0x30) && casemap::isalnum(0x41) && casemap::isalnum(0x7A));
    assert!(!casemap::isalnum(0x20) && !casemap::isalnum(0x40));
    assert!(casemap::isalpha(0x42) && !casemap::isalpha(0x32));
    assert!(casemap::isblank(0x09) && casemap::isblank(0x20) && !casemap::isblank(0x0A));
    assert!(casemap::iscntrl(0x00) && casemap::iscntrl(0x7F) && !casemap::iscntrl(0x20));
    assert!(casemap::isdigit(0x39) && !casemap::isdigit(0x41));
    assert!(casemap::isgraph(0x21) && !casemap::isgraph(0x20));
    assert!(casemap::islower(0x61) && !casemap::islower(0x41));
    assert!(casemap::isprint(0x20) && !casemap::isprint(0x7F));
    assert!(casemap::ispunct(0x21) && casemap::ispunct(0x40) && !casemap::ispunct(0x41));
    assert!(casemap::isspace(0x0A) && casemap::isspace(0x20) && !casemap::isspace(0x41));
    assert!(casemap::isupper(0x5A) && !casemap::isupper(0x61));
    assert!(casemap::isxdigit(0x46) && casemap::isxdigit(0x66) && !casemap::isxdigit(0x47));
}

#[test]
fn posix_locale_names() {
    assert!(is_posix_locale("C"));
    assert!(is_posix_locale("POSIX"));
    assert!(is_posix_locale("C.UTF-8"));
    assert!(is_posix_locale("POSIX.UTF-8"));
    assert!(!is_posix_locale("en_US.UTF-8"));
    assert!(!is_posix_locale("POSIXY"));
    assert!(!is_posix_locale("c"));
    assert!(!is_posix_locale(""));
}

#[test]
fn mbstate_reset_and_initial() {
    let mut s = MBState::new();
    assert!(s.is_initial());
    s.ch = 5;
    s.u16_surrogate = 0xD800;
    assert!(!s.is_initial());
    s.reset();
    assert!(s.is_initial());
    assert_eq!(s.ch, 0);
    assert_eq!(s.u8_buffer, [0, 0, 0, 0]);
    // A non-surrogate pending unit still counts as initial.
    let mut s2 = MBState::new();
    s2.u16_surrogate = 0x41;
    assert!(s2.is_initial());
}
