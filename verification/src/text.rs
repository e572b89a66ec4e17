//! Character-level text helpers shared by the wake-word scanner and the
//! message codec: ASCII case folding and the two std operations on
//! characters and strings that vstd leaves unspecified.

use vstd::prelude::*;

verus! {

/// Relies on alloc::string::String::push: appends the given character to
/// the end of the string.
pub assume_specification[ String::push ](s: &mut String, ch: char)
    ensures
        final(s)@ == old(s)@.push(ch),
;

/// Relies on char::from_u32: returns `Some` exactly when the value is a
/// Unicode scalar value (not a surrogate, not above the maximum code
/// point), and the resulting character carries that code point.
pub assume_specification[ char::from_u32 ](v: u32) -> (r: Option<char>)
    ensures
        (r is Some) <==> (v < 0xD800 || (0xE000 <= v && v <= 0x10FFFF)),
        r matches Some(c) ==> c as u32 == v,
;

/// The ASCII-lowercased form of one character: `A`..`Z` map to `a`..`z`,
/// every other character is unchanged. Case-insensitive comparison in this
/// crate folds ASCII letters only.
pub open spec fn lower_char(c: char) -> char {
    if 'A' <= c && c <= 'Z' {
        ((c as u32) + 32) as char
    } else {
        c
    }
}

/// ASCII-lowercases one character.
pub fn to_lower_char(c: char) -> (r: char)
    ensures
        r == lower_char(c),
{
    let v = c as u32;
    if 65 <= v && v <= 90 {
        let r = char::from_u32(v + 32).unwrap();
        proof {
            vstd::utf8::char_u32_cast(r, (v + 32) as u32);
            assert(r == lower_char(c));
        }
        r
    } else {
        c
    }
}

} // verus!
