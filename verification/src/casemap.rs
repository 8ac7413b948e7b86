//! ASCII character classification and case mapping: the plain C-locale
//! `ctype` predicates and the ASCII case maps.

use vstd::prelude::*;

verus! {

/// The lowercase form of an ASCII letter; everything else is unchanged.
pub open spec fn spec_tolower(c: u32) -> u32 {
    if 0x41 <= c <= 0x5A {
        (c + 0x20) as u32
    } else {
        c
    }
}

/// The uppercase form of an ASCII letter; everything else is unchanged.
pub open spec fn spec_toupper(c: u32) -> u32 {
    if 0x61 <= c <= 0x7A {
        (c - 0x20) as u32
    } else {
        c
    }
}

/// Maps an ASCII uppercase letter to lowercase.
pub fn tolower(c: u32) -> (r: u32)
    ensures
        r == spec_tolower(c),
{
    if c >= 0x41 && c <= 0x5A {
        return c - 0x41 + 0x61;
    }
    c
}

/// Maps an ASCII lowercase letter to uppercase.
pub fn toupper(c: u32) -> (r: u32)
    ensures
        r == spec_toupper(c),
{
    if c >= 0x61 && c <= 0x7A {
        return c - 0x61 + 0x41;
    }
    c
}

/// An ASCII digit or letter.
pub fn isalnum(c: u32) -> (r: bool)
    ensures
        r == (0x30 <= c <= 0x39 || 0x41 <= c <= 0x5A || 0x61 <= c <= 0x7A),
{
    (c >= 0x30 && c <= 0x39) || (c >= 0x41 && c <= 0x5A) || (c >= 0x61 && c <= 0x7A)
}

/// An ASCII letter.
pub fn isalpha(c: u32) -> (r: bool)
    ensures
        r == (0x41 <= c <= 0x5A || 0x61 <= c <= 0x7A),
{
    (c >= 0x41 && c <= 0x5A) || (c >= 0x61 && c <= 0x7A)
}

/// A tab or a space.
pub fn isblank(c: u32) -> (r: bool)
    ensures
        r == (c == 0x09 || c == 0x20),
{
    c == 0x09 || c == 0x20
}

/// An ASCII control character.
pub fn iscntrl(c: u32) -> (r: bool)
    ensures
        r == (c < 0x20 || c == 0x7F),
{
    c < 0x20 || c == 0x7F
}

/// An ASCII decimal digit.
pub fn isdigit(c: u32) -> (r: bool)
    ensures
        r == (0x30 <= c <= 0x39),
{
    c >= 0x30 && c <= 0x39
}

/// A visible ASCII character (printable and not a space).
pub fn isgraph(c: u32) -> (r: bool)
    ensures
        r == (0x21 <= c <= 0x7E),
{
    c >= 0x21 && c <= 0x7E
}

/// An ASCII lowercase letter.
pub fn islower(c: u32) -> (r: bool)
    ensures
        r == (0x61 <= c <= 0x7A),
{
    c >= 0x61 && c <= 0x7A
}

/// A printable ASCII character, the space included.
pub fn isprint(c: u32) -> (r: bool)
    ensures
        r == (0x20 <= c <= 0x7E),
{
    c >= 0x20 && c <= 0x7E
}

/// ASCII punctuation: visible and neither a letter nor a digit.
pub fn ispunct(c: u32) -> (r: bool)
    ensures
        r == (0x21 <= c <= 0x2F || 0x3A <= c <= 0x40 || 0x5B <= c <= 0x60 || 0x7B <= c <= 0x7E),
{
    (c >= 0x21 && c <= 0x2F) || (c >= 0x3A && c <= 0x40) || (c >= 0x5B && c <= 0x60) || (c >= 0x7B
        && c <= 0x7E)
}

/// ASCII whitespace.
pub fn isspace(c: u32) -> (r: bool)
    ensures
        r == (0x09 <= c <= 0x0D || c == 0x20),
{
    (c >= 0x09 && c <= 0x0D) || c == 0x20
}

/// An ASCII uppercase letter.
pub fn isupper(c: u32) -> (r: bool)
    ensures
        r == (0x41 <= c <= 0x5A),
{
    c >= 0x41 && c <= 0x5A
}

/// An ASCII hexadecimal digit.
pub fn isxdigit(c: u32) -> (r: bool)
    ensures
        r == (0x30 <= c <= 0x39 || 0x41 <= c <= 0x46 || 0x61 <= c <= 0x66),
{
    (c >= 0x30 && c <= 0x39) || (c >= 0x41 && c <= 0x46) || (c >= 0x61 && c <= 0x66)
}

} // verus!
