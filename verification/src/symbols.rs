//! Generated state symbols: cycle steps are named by consecutive
//! characters counted up from '1'.

use vstd::prelude::*;

verus! {

/// Relies on char::from_u32: Some exactly for valid Unicode scalar values
/// (everything in 0..=0x10FFFF but the surrogate range), carrying the
/// character with that code point.
pub assume_specification[ char::from_u32 ](u: u32) -> (r: Option<char>)
    ensures
        r is Some <==> (u < 0xD800 || (0xE000 <= u && u <= 0x10FFFF)),
        r matches Some(c) ==> c == u as char && c as u32 == u,
;

/// The symbol of cycle step `i`: the character `i` places after '1'.
pub open spec fn sym(i: int) -> char {
    (0x31 + i) as char
}

/// Greatest number of cycle steps whose generated symbols stay below the
/// surrogate range, so every step has a distinct valid symbol.
pub const MAX_STEPS: u32 = 0xD7CF;

/// The symbol of cycle step `i`, executably.
pub fn sym_char(i: u32) -> (c: char)
    requires
        i < MAX_STEPS,
    ensures
        c == sym(i as int),
{
    let u: u32 = 0x31 + i;
    let c = char::from_u32(u).unwrap();
    assert(c == u as char);
    assert(u as char == (0x31 + i as int) as char);
    c
}

/// Distinct steps get distinct symbols.
pub proof fn lemma_sym_distinct(i: int, j: int)
    requires
        0 <= i < MAX_STEPS,
        0 <= j < MAX_STEPS,
        i != j,
    ensures
        sym(i) != sym(j),
{
}

} // verus!
