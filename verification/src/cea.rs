//! The collation element generator. It consumes the canonicalized,
//! prefix-trimmed code-point sequence left to right and emits the weight
//! stream: low-table weights for common code points, contraction rows found
//! by longest-match lookahead (including discontiguous matches that pull a
//! later combining mark forward), single-code-point rows, and implicit
//! weights derived from the code point itself when the tables say nothing.
//! The stream is terminated by a sentinel word.
//!
//! Where the data set has no entry for a code point the authoritative tables
//! always cover (the dense low range, contraction openers), the generator
//! falls back to the single/implicit path instead of failing: the engine is
//! total in the data it is given.

use crate::cea_utils::{
    ccc_sequence_ok, fill_weights, grow_vec, handle_implicit_weights, handle_low_weights,
    remove_pulled, spec_ccc_ok, spec_implicit_a, spec_implicit_b, spec_remove_pulled,
};
use crate::normalize::{ccc, ccc_of};
use crate::tables::{set_contains, Tables, TablesView};
use crate::types::{spec_is_cldr, Tailoring};
use crate::weights::{spec_shift, spec_shift_row};
use vstd::prelude::*;

verus! {

/// The outcome of one generator step: the weights it emitted (already passed
/// through the shifted transform where that applies), the variable state and
/// the working sequence afterwards, and where the cursor moved.
pub ghost struct CeaStep {
    pub emitted: Seq<u32>,
    pub lv: bool,
    pub chars: Seq<u32>,
    pub left: int,
}

/// A weight row as emitted: shifted element by element when shifting is on.
pub open spec fn emit_row(row: Seq<u32>, shifting: bool, lv: bool) -> (Seq<u32>, bool) {
    if shifting {
        spec_shift_row(row, lv)
    } else {
        (row, lv)
    }
}

/// The single-code-point step: the singles row when one is tabulated, the two
/// implicit weights otherwise (implicit weights bypass the shifted transform).
pub open spec fn single_step(
    chars: Seq<u32>,
    left: int,
    shifting: bool,
    lv: bool,
    tv: TablesView,
) -> CeaStep {
    let c = chars[left];
    if tv.singles.contains_key(c) {
        let e = emit_row(tv.singles[c], shifting, lv);
        CeaStep { emitted: e.0, lv: e.1, chars, left: left + 1 }
    } else {
        CeaStep {
            emitted: seq![spec_implicit_a(c, tv.unassigned), spec_implicit_b(c, tv.unassigned)],
            lv,
            chars,
            left: left + 1,
        }
    }
}

/// The search for a contraction that pulls one (or, under a CLDR tailoring,
/// two) trailing code points forward past combining marks, tried from the
/// farthest candidate position down; on failure the single-code-point step
/// decides.
pub open spec fn pull_search(
    chars: Seq<u32>,
    left: int,
    right: int,
    max_right: int,
    try_two: bool,
    shifting: bool,
    lv: bool,
    tv: TablesView,
) -> CeaStep
    decreases 2 * (max_right - right) + if try_two {
        1int
    } else {
        0int
    },
{
    if max_right <= right {
        single_step(chars, left, shifting, lv, tv)
    } else if !spec_ccc_ok(chars.subrange(right, max_right + 1)) {
        pull_search(chars, left, right, max_right - 1, false, shifting, lv, tv)
    } else {
        let subset = if try_two {
            seq![chars[left], chars[max_right - 1], chars[max_right]]
        } else {
            seq![chars[left], chars[max_right]]
        };
        if tv.multis.contains_key(subset) {
            let e = emit_row(tv.multis[subset], shifting, lv);
            CeaStep {
                emitted: e.0,
                lv: e.1,
                chars: spec_remove_pulled(chars, max_right, try_two),
                left: left + 1,
            }
        } else if try_two {
            pull_search(chars, left, right, max_right, false, shifting, lv, tv)
        } else {
            pull_search(chars, left, right, max_right - 1, false, shifting, lv, tv)
        }
    }
}

/// The longest-contraction search: windows are tried from `right` down; a
/// two-element match may be upgraded to a discontiguous three-element match
/// when the two following marks have strictly increasing classes; at window
/// one the pulled-contraction search runs.
pub open spec fn multi_search(
    chars: Seq<u32>,
    left: int,
    right: int,
    shifting: bool,
    lv: bool,
    cldr: bool,
    tv: TablesView,
) -> CeaStep
    decreases right - left,
{
    if right - left <= 1 {
        let il = chars.len() as int;
        let max_right = if il - right >= 3 {
            right + 2
        } else if il - right == 2 {
            right + 1
        } else {
            right
        };
        let try_two = max_right - right == 2 && cldr;
        pull_search(chars, left, right, max_right, try_two, shifting, lv, tv)
    } else {
        let subset = chars.subrange(left, right);
        if tv.multis.contains_key(subset) {
            if right - left == 2 && right + 1 < chars.len() && ccc_of(chars[right]) > 0 && ccc_of(
                chars[right + 1],
            ) > ccc_of(chars[right]) && tv.multis.contains_key(
                seq![chars[left], chars[left + 1], chars[right + 1]],
            ) {
                let e = emit_row(
                    tv.multis[seq![chars[left], chars[left + 1], chars[right + 1]]],
                    shifting,
                    lv,
                );
                CeaStep { emitted: e.0, lv: e.1, chars: chars.remove(right + 1), left: right }
            } else {
                let e = emit_row(tv.multis[subset], shifting, lv);
                CeaStep { emitted: e.0, lv: e.1, chars, left: right }
            }
        } else {
            multi_search(chars, left, right - 1, shifting, lv, cldr, tv)
        }
    }
}

/// One step of the generator at the cursor: the dense low table for common
/// code points, otherwise a contraction window sized by the trigger sets,
/// otherwise the single-code-point step.
pub open spec fn cea_step(
    chars: Seq<u32>,
    left: int,
    lv: bool,
    shifting: bool,
    cldr: bool,
    tv: TablesView,
) -> CeaStep {
    let c = chars[left];
    if c < 0xB7 && c != 0x6C && c != 0x4C && tv.low.contains_key(c) {
        let e = if shifting {
            spec_shift(tv.low[c], lv)
        } else {
            (tv.low[c], lv)
        };
        CeaStep { emitted: seq![e.0], lv: e.1, chars, left: left + 1 }
    } else {
        let lookahead: int = if tv.need_three.contains(c) {
            3
        } else if tv.need_two.contains(c) {
            2
        } else {
            1
        };
        let check_multi = lookahead > 1 && chars.len() - left > 1;
        if !check_multi {
            single_step(chars, left, shifting, lv, tv)
        } else {
            let right = if chars.len() < left + lookahead {
                chars.len() as int
            } else {
                left + lookahead
            };
            multi_search(chars, left, right, shifting, lv, cldr, tv)
        }
    }
}

/// After a pulled-contraction search the cursor stands one past where it was
/// and at most two code points are gone: the step strictly shrinks the work.
proof fn lemma_pull_bounds(
    chars: Seq<u32>,
    left: int,
    right: int,
    max_right: int,
    try_two: bool,
    shifting: bool,
    lv: bool,
    tv: TablesView,
)
    requires
        0 <= left < chars.len(),
        right == left + 1,
        right <= max_right,
        max_right > right ==> max_right < chars.len(),
        try_two ==> max_right == right + 2,
    ensures
        ({
            let st = pull_search(chars, left, right, max_right, try_two, shifting, lv, tv);
            &&& st.left == left + 1
            &&& st.left <= st.chars.len()
            &&& st.chars.len() <= chars.len()
            &&& st.chars.len() - st.left < chars.len() - left
        }),
    decreases 2 * (max_right - right) + if try_two {
        1int
    } else {
        0int
    },
{
    if max_right <= right {
    } else if !spec_ccc_ok(chars.subrange(right, max_right + 1)) {
        lemma_pull_bounds(chars, left, right, max_right - 1, false, shifting, lv, tv);
    } else {
        let subset = if try_two {
            seq![chars[left], chars[max_right - 1], chars[max_right]]
        } else {
            seq![chars[left], chars[max_right]]
        };
        if tv.multis.contains_key(subset) {
        } else if try_two {
            lemma_pull_bounds(chars, left, right, max_right, false, shifting, lv, tv);
        } else {
            lemma_pull_bounds(chars, left, right, max_right - 1, false, shifting, lv, tv);
        }
    }
}

/// A contraction search moves the cursor forward and never grows the working
/// sequence: the step strictly shrinks the work.
proof fn lemma_multi_bounds(
    chars: Seq<u32>,
    left: int,
    right: int,
    shifting: bool,
    lv: bool,
    cldr: bool,
    tv: TablesView,
)
    requires
        0 <= left < chars.len(),
        left + 1 <= right <= chars.len(),
    ensures
        ({
            let st = multi_search(chars, left, right, shifting, lv, cldr, tv);
            &&& left < st.left
            &&& st.left <= st.chars.len()
            &&& st.chars.len() <= chars.len()
            &&& st.chars.len() - st.left < chars.len() - left
        }),
    decreases right - left,
{
    if right - left <= 1 {
        let il = chars.len() as int;
        let max_right = if il - right >= 3 {
            right + 2
        } else if il - right == 2 {
            right + 1
        } else {
            right
        };
        let try_two = max_right - right == 2 && cldr;
        lemma_pull_bounds(chars, left, right, max_right, try_two, shifting, lv, tv);
    } else {
        let subset = chars.subrange(left, right);
        if tv.multis.contains_key(subset) {
        } else {
            lemma_multi_bounds(chars, left, right - 1, shifting, lv, cldr, tv);
        }
    }
}

/// Every generator step strictly shrinks the work left to do.
proof fn lemma_cea_step_bounds(
    chars: Seq<u32>,
    left: int,
    lv: bool,
    shifting: bool,
    cldr: bool,
    tv: TablesView,
)
    requires
        0 <= left < chars.len(),
    ensures
        ({
            let st = cea_step(chars, left, lv, shifting, cldr, tv);
            &&& st.left <= st.chars.len()
            &&& st.chars.len() - st.left < chars.len() - left
        }),
{
    let c = chars[left];
    if c < 0xB7 && c != 0x6C && c != 0x4C && tv.low.contains_key(c) {
    } else {
        let lookahead: int = if tv.need_three.contains(c) {
            3
        } else if tv.need_two.contains(c) {
            2
        } else {
            1
        };
        let check_multi = lookahead > 1 && chars.len() - left > 1;
        if check_multi {
            let right = if chars.len() < left + lookahead {
                chars.len() as int
            } else {
                left + lookahead
            };
            lemma_multi_bounds(chars, left, right, shifting, lv, cldr, tv);
        }
    }
}

/// The whole weight stream for a working sequence from the cursor on.
pub open spec fn spec_cea_from(
    chars: Seq<u32>,
    left: int,
    lv: bool,
    shifting: bool,
    cldr: bool,
    tv: TablesView,
) -> Seq<u32>
    decreases chars.len() - left,
    via spec_cea_from_dec
{
    if left < 0 || left >= chars.len() {
        Seq::empty()
    } else {
        let st = cea_step(chars, left, lv, shifting, cldr, tv);
        st.emitted + spec_cea_from(st.chars, st.left, st.lv, shifting, cldr, tv)
    }
}

#[via_fn]
proof fn spec_cea_from_dec(
    chars: Seq<u32>,
    left: int,
    lv: bool,
    shifting: bool,
    cldr: bool,
    tv: TablesView,
) {
    if 0 <= left < chars.len() {
        lemma_cea_step_bounds(chars, left, lv, shifting, cldr, tv);
    }
}

/// The weight stream (without the sentinel) the generator produces for a
/// working sequence.
pub open spec fn spec_cea(chars: Seq<u32>, shifting: bool, cldr: bool, tv: TablesView) -> Seq<
    u32,
> {
    spec_cea_from(chars, 0, false, shifting, cldr, tv)
}

/// A copy of `v[from..to]`.
fn copy_range(v: &Vec<u32>, from: usize, to: usize) -> (out: Vec<u32>)
    requires
        from <= to <= v@.len(),
    ensures
        out@ == v@.subrange(from as int, to as int),
{
    let mut out: Vec<u32> = Vec::new();
    let mut i: usize = from;
    proof {
        assert(v@.subrange(from as int, from as int) =~= Seq::<u32>::empty());
    }
    while i < to
        invariant
            from <= i <= to <= v@.len(),
            out@ == v@.subrange(from as int, i as int),
        decreases to - i,
    {
        out.push(v[i]);
        proof {
            assert(v@.subrange(from as int, i + 1) =~= v@.subrange(from as int, i as int).push(
                v@[i as int],
            ));
        }
        i += 1;
    }
    out
}

/// Runs the single-code-point step at the cursor, emitting into the buffer.
fn do_single(
    cea: &mut Vec<u32>,
    char_vals: &Vec<u32>,
    left: usize,
    cea_idx: &mut usize,
    shifting: bool,
    last_variable: &mut bool,
    t: &Tables,
)
    requires
        left < char_vals@.len(),
        *old(cea_idx) <= old(cea)@.len(),
    ensures
        ({
            let st = single_step(char_vals@, left as int, shifting, *old(last_variable), t@);
            &&& final (cea)@.take(*final (cea_idx) as int) == old(cea)@.take(*old(cea_idx) as int)
                + st.emitted
            &&& *final (last_variable) == st.lv
            &&& *final (cea_idx) <= final (cea)@.len()
            &&& final (cea)@.len() >= old(cea)@.len()
        }),
{
    let c = char_vals[left];
    match t.singles.get(c) {
        Some(row) => {
            fill_weights(cea, row, cea_idx, shifting, last_variable);
        },
        None => {
            let ghost pre = cea@.take(*cea_idx as int);
            handle_implicit_weights(cea, c, cea_idx, &t.unassigned);
            proof {
                assert(pre.push(spec_implicit_a(c, t@.unassigned)).push(
                    spec_implicit_b(c, t@.unassigned),
                ) =~= pre + seq![
                    spec_implicit_a(c, t@.unassigned),
                    spec_implicit_b(c, t@.unassigned),
                ]);
            }
        },
    }
}

/// Runs the contraction search at the cursor: the descending-window search,
/// then the pulled-contraction search, then the single fallback. Returns the
/// new cursor.
fn do_multi(
    cea: &mut Vec<u32>,
    char_vals: &mut Vec<u32>,
    left: usize,
    right0: usize,
    cea_idx: &mut usize,
    shifting: bool,
    cldr: bool,
    last_variable: &mut bool,
    input_length: &mut usize,
    t: &Tables,
) -> (new_left: usize)
    requires
        left + 2 <= right0 <= old(char_vals)@.len(),
        *old(cea_idx) <= old(cea)@.len(),
        *old(input_length) == old(char_vals)@.len(),
    ensures
        ({
            let st = multi_search(
                old(char_vals)@,
                left as int,
                right0 as int,
                shifting,
                *old(last_variable),
                cldr,
                t@,
            );
            &&& final (char_vals)@ == st.chars
            &&& new_left == st.left
            &&& *final (last_variable) == st.lv
            &&& final (cea)@.take(*final (cea_idx) as int) == old(cea)@.take(*old(cea_idx) as int)
                + st.emitted
            &&& *final (cea_idx) <= final (cea)@.len()
            &&& final (cea)@.len() >= old(cea)@.len()
            &&& *final (input_length) == final (char_vals)@.len()
        }),
{
    let ghost lv0 = *last_variable;
    let mut right = right0;
    while right - left > 1
        invariant
            left + 1 <= right <= char_vals@.len(),
            char_vals@ == old(char_vals)@,
            cea@ == old(cea)@,
            *cea_idx == *old(cea_idx),
            *cea_idx <= cea@.len(),
            *last_variable == lv0,
            lv0 == *old(last_variable),
            *input_length == char_vals@.len(),
            multi_search(char_vals@, left as int, right0 as int, shifting, lv0, cldr, t@)
                == multi_search(char_vals@, left as int, right as int, shifting, lv0, cldr, t@),
        decreases right,
    {
        let subset = copy_range(char_vals, left, right);
        match t.multis.get(subset.as_slice()) {
            Some(row) => {
                let try_discont = right - left == 2 && *input_length - right > 1;
                if try_discont {
                    let ccc_a = ccc(char_vals[right]);
                    let ccc_b = ccc(char_vals[right + 1]);
                    if ccc_a > 0 && ccc_b > ccc_a {
                        let mut new_subset: Vec<u32> = Vec::new();
                        new_subset.push(char_vals[left]);
                        new_subset.push(char_vals[left + 1]);
                        new_subset.push(char_vals[right + 1]);
                        proof {
                            assert(new_subset@ =~= seq![
                                char_vals@[left as int],
                                char_vals@[left + 1],
                                char_vals@[right + 1],
                            ]);
                        }
                        match t.multis.get(new_subset.as_slice()) {
                            Some(new_row) => {
                                fill_weights(cea, new_row, cea_idx, shifting, last_variable);
                                remove_pulled(char_vals, right + 1, input_length, false);
                                return right;
                            },
                            None => {},
                        }
                    }
                }
                fill_weights(cea, row, cea_idx, shifting, last_variable);
                return right;
            },
            None => {
                right -= 1;
            },
        }
    }
    // right == left + 1: try pulling one or two trailing code points forward.
    let left_val = char_vals[left];
    let mut max_right = if *input_length - right >= 3 {
        right + 2
    } else if *input_length - right == 2 {
        right + 1
    } else {
        right
    };
    let mut try_two = max_right - right == 2 && cldr;
    let ghost st_target = multi_search(
        old(char_vals)@,
        left as int,
        right0 as int,
        shifting,
        lv0,
        cldr,
        t@,
    );
    proof {
        assert(st_target == pull_search(
            char_vals@,
            left as int,
            right as int,
            max_right as int,
            try_two,
            shifting,
            lv0,
            t@,
        ));
    }
    while max_right > right
        invariant
            right == left + 1,
            right <= max_right,
            max_right > right ==> max_right < char_vals@.len(),
            try_two ==> max_right == right + 2,
            char_vals@ == old(char_vals)@,
            cea@ == old(cea)@,
            *cea_idx == *old(cea_idx),
            *cea_idx <= cea@.len(),
            *last_variable == lv0,
            lv0 == *old(last_variable),
            *input_length == char_vals@.len(),
            left_val == char_vals@[left as int],
            st_target == multi_search(
                old(char_vals)@,
                left as int,
                right0 as int,
                shifting,
                lv0,
                cldr,
                t@,
            ),
            st_target == pull_search(
                char_vals@,
                left as int,
                right as int,
                max_right as int,
                try_two,
                shifting,
                lv0,
                t@,
            ),
        decreases 2 * max_right + if try_two {
            1int
        } else {
            0int
        },
    {
        let test_range = copy_range(char_vals, right, max_right + 1);
        if !ccc_sequence_ok(test_range.as_slice()) {
            try_two = false;
            max_right -= 1;
            continue ;
        }
        let mut new_subset: Vec<u32> = Vec::new();
        new_subset.push(left_val);
        if try_two {
            new_subset.push(char_vals[max_right - 1]);
        }
        new_subset.push(char_vals[max_right]);
        proof {
            if try_two {
                assert(new_subset@ =~= seq![
                    char_vals@[left as int],
                    char_vals@[max_right - 1],
                    char_vals@[max_right as int],
                ]);
            } else {
                assert(new_subset@ =~= seq![
                    char_vals@[left as int],
                    char_vals@[max_right as int],
                ]);
            }
        }
        match t.multis.get(new_subset.as_slice()) {
            Some(new_row) => {
                fill_weights(cea, new_row, cea_idx, shifting, last_variable);
                remove_pulled(char_vals, max_right, input_length, try_two);
                return left + 1;
            },
            None => {
                if try_two {
                    try_two = false;
                } else {
                    max_right -= 1;
                }
            },
        }
    }
    // No pulled contraction: the single-code-point step decides.
    do_single(cea, char_vals, left, cea_idx, shifting, last_variable, t);
    left + 1
}

/// Generates the collation element stream for the working sequence into the
/// reusable buffer, and terminates it with the sentinel word. The buffer is
/// grown as needed; everything past the sentinel is dead space from earlier
/// use.
pub fn generate_cea(
    cea: &mut Vec<u32>,
    char_vals: &mut Vec<u32>,
    shifting: bool,
    tailoring: Tailoring,
    t: &Tables,
)
    ensures
        ({
            let stream = spec_cea(old(char_vals)@, shifting, spec_is_cldr(tailoring), t@);
            &&& stream.len() < final (cea)@.len()
            &&& final (cea)@.take(stream.len() as int) == stream
            &&& final (cea)@[stream.len() as int] == u32::MAX
        }),
{
    let cldr = tailoring != Tailoring::Ducet;
    let ghost tv = t@;
    let ghost stream = spec_cea(char_vals@, shifting, cldr, tv);
    let mut input_length = char_vals.len();
    let mut left: usize = 0;
    let mut cea_idx: usize = 0;
    let mut last_variable = false;
    proof {
        assert(cea@.take(0) =~= Seq::<u32>::empty());
    }
    while left < input_length
        invariant
            input_length == char_vals@.len(),
            left <= char_vals@.len(),
            cea_idx <= cea@.len(),
            stream == cea@.take(cea_idx as int) + spec_cea_from(
                char_vals@,
                left as int,
                last_variable,
                shifting,
                cldr,
                tv,
            ),
            tv == t@,
        decreases char_vals@.len() - left,
    {
        let ghost chars0 = char_vals@;
        let ghost left0 = left as int;
        let ghost lv0 = last_variable;
        let ghost st = cea_step(chars0, left0, lv0, shifting, cldr, tv);
        proof {
            lemma_cea_step_bounds(chars0, left0, lv0, shifting, cldr, tv);
        }
        let ghost emitted0 = cea@.take(cea_idx as int);
        let left_val = char_vals[left];
        grow_vec(cea, cea_idx);
        proof {
            assert(cea@.take(cea_idx as int) =~= emitted0);
        }
        let mut handled = false;
        if left_val < 0xB7 && left_val != 0x6C && left_val != 0x4C {
            match t.low.get(left_val) {
                Some(w) => {
                    handle_low_weights(cea, w, &mut cea_idx, shifting, &mut last_variable);
                    proof {
                        if shifting {
                            assert(emitted0.push(spec_shift(w, lv0).0) =~= emitted0 + seq![
                                spec_shift(w, lv0).0,
                            ]);
                        } else {
                            assert(emitted0.push(w) =~= emitted0 + seq![w]);
                        }
                    }
                    left = left + 1;
                    handled = true;
                },
                None => {},
            }
        }
        if !handled {
            let lookahead: usize = if set_contains(&t.need_three, left_val) {
                3
            } else if set_contains(&t.need_two, left_val) {
                2
            } else {
                1
            };
            let check_multi = lookahead > 1 && input_length - left > 1;
            if !check_multi {
                do_single(cea, char_vals, left, &mut cea_idx, shifting, &mut last_variable, t);
                left = left + 1;
            } else {
                let right0 = if input_length - left >= lookahead {
                    left + lookahead
                } else {
                    input_length
                };
                let new_left = do_multi(
                    cea,
                    char_vals,
                    left,
                    right0,
                    &mut cea_idx,
                    shifting,
                    cldr,
                    &mut last_variable,
                    &mut input_length,
                    t,
                );
                left = new_left;
            }
        }
        proof {
            assert(cea@.take(cea_idx as int) =~= emitted0 + st.emitted);
            assert(char_vals@ == st.chars);
            assert(left as int == st.left);
            assert(last_variable == st.lv);
            assert(spec_cea_from(chars0, left0, lv0, shifting, cldr, tv) == st.emitted
                + spec_cea_from(st.chars, st.left, st.lv, shifting, cldr, tv));
            assert(emitted0 + (st.emitted + spec_cea_from(st.chars, st.left, st.lv, shifting, cldr, tv))
                =~= (emitted0 + st.emitted) + spec_cea_from(
                st.chars,
                st.left,
                st.lv,
                shifting,
                cldr,
                tv,
            ));
        }
    }
    proof {
        assert(spec_cea_from(char_vals@, left as int, last_variable, shifting, cldr, tv)
            =~= Seq::<u32>::empty());
        assert(stream =~= cea@.take(cea_idx as int));
        assert(stream.len() == cea_idx as int);
    }
    let ghost pre_sentinel = cea@.take(cea_idx as int);
    grow_vec(cea, cea_idx);
    proof {
        assert(cea@.take(cea_idx as int) =~= pre_sentinel);
    }
    cea[cea_idx] = u32::MAX;
    proof {
        assert(cea@.take(cea_idx as int) =~= pre_sentinel);
    }
}

} // verus!
