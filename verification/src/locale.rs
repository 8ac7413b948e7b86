//! Locale-name classification: which names select the plain POSIX ordering
//! rather than a Unicode tailoring. Name parsing beyond this test belongs to
//! the locale registry around the engine.

use vstd::prelude::*;
use vstd::string::StringSliceAdditionalSpecFns;

verus! {

/// The names that select the POSIX/C locale: `C` and `POSIX`, bare or with a
/// codeset suffix after a dot.
pub open spec fn spec_is_posix_locale(b: Seq<u8>) -> bool {
    ||| b == seq![0x43u8]
    ||| b == seq![0x50u8, 0x4Fu8, 0x53u8, 0x49u8, 0x58u8]
    ||| (b.len() >= 2 && b[0] == 0x43 && b[1] == 0x2E)
    ||| (b.len() >= 6 && b.take(6) == seq![0x50u8, 0x4Fu8, 0x53u8, 0x49u8, 0x58u8, 0x2Eu8])
}

/// Whether a locale name names the POSIX/C locale.
pub fn is_posix_locale(name: &str) -> (r: bool)
    ensures
        r == spec_is_posix_locale(name.spec_bytes()),
{
    let b = name.as_bytes();
    if b.len() == 1 && b[0] == 0x43 {
        proof {
            assert(b@ =~= seq![0x43u8]);
        }
        return true;
    }
    if b.len() == 5 && b[0] == 0x50 && b[1] == 0x4F && b[2] == 0x53 && b[3] == 0x49 && b[4]
        == 0x58 {
        proof {
            assert(b@ =~= seq![0x50u8, 0x4Fu8, 0x53u8, 0x49u8, 0x58u8]);
        }
        return true;
    }
    if b.len() >= 2 && b[0] == 0x43 && b[1] == 0x2E {
        return true;
    }
    if b.len() >= 6 && b[0] == 0x50 && b[1] == 0x4F && b[2] == 0x53 && b[3] == 0x49 && b[4] == 0x58
        && b[5] == 0x2E {
        proof {
            assert(b@.take(6) =~= seq![0x50u8, 0x4Fu8, 0x53u8, 0x49u8, 0x58u8, 0x2Eu8]);
        }
        return true;
    }
    proof {
        if name.spec_bytes() == seq![0x43u8] {
            assert(b@.len() == 1 && b@[0] == 0x43);
        }
        if name.spec_bytes() == seq![0x50u8, 0x4Fu8, 0x53u8, 0x49u8, 0x58u8] {
            assert(b@.len() == 5);
        }
        if name.spec_bytes().len() >= 6 && name.spec_bytes().take(6) == seq![
            0x50u8,
            0x4Fu8,
            0x53u8,
            0x49u8,
            0x58u8,
            0x2Eu8,
        ] {
            assert(b@[0] == b@.take(6)[0]);
            assert(b@[1] == b@.take(6)[1]);
            assert(b@[2] == b@.take(6)[2]);
            assert(b@[3] == b@.take(6)[3]);
            assert(b@[4] == b@.take(6)[4]);
            assert(b@[5] == b@.take(6)[5]);
        }
    }
    false
}

} // verus!
