//! Contracts for the few standard-library functions this crate calls that
//! vstd does not specify.

use vstd::prelude::*;

verus! {

/// Relies on `String::push`: appends one character to the end of the string.
pub assume_specification[ String::push ](s: &mut String, c: char)
    ensures
        final(s)@ == old(s)@.push(c),
;

/// Relies on `char::from_u32`: returns the character with the given Unicode
/// scalar value, and `None` exactly when the value is a surrogate code point
/// or lies above the Unicode range.
pub assume_specification[ char::from_u32 ](v: u32) -> (c: Option<char>)
    ensures
        c matches Some(x) ==> x as u32 == v,
        c is Some <==> (v < 0xD800 || (0xE000 <= v && v <= 0x10FFFF)),
;

} // verus!
