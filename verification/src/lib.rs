//! A verified model of an electromechanical rotor cipher machine: rotating
//! substitution permutations over a fixed 26-symbol alphabet, a reflector, an
//! operator-wired plugboard, odometer-style rotor stepping, the two-mode input
//! state machine that drives a session, and the message buffer that records
//! and formats the enciphered output.

pub mod cli;
pub mod config;
pub mod message;
pub mod model;
pub mod plugboard;
pub mod rotor;
pub mod utils;
pub mod validation;

use vstd::prelude::*;

verus! {

/// Greatest number of plug pairs the plugboard accepts.
pub const MAX_PLUGS: usize = 10;

/// Whether `c` is a symbol of the machine's alphabet: an uppercase letter.
pub open spec fn is_symbol(c: char) -> bool {
    65 <= c as u32 <= 90
}

/// Ordinal of a symbol in the alphabet: 0 for 'A' through 25 for 'Z'.
pub open spec fn symbol_index(c: char) -> int {
    c as u32 - 65
}

/// The symbol whose ordinal in the alphabet is `i`.
pub open spec fn symbol_at(i: int) -> char
    recommends
        0 <= i < 26,
{
    ((65 + i) as u8) as char
}

/// The two spec conversions between symbols and their ordinals invert
/// each other on the alphabet.
pub proof fn lemma_symbol_index_roundtrip(c: char, i: int)
    requires
        is_symbol(c),
        0 <= i < 26,
    ensures
        symbol_at(symbol_index(c)) == c,
        symbol_index(symbol_at(i)) == i,
        is_symbol(symbol_at(i)),
{
}

/// The alphabet as a sequence: 'A' at ordinal 0 through 'Z' at ordinal 25.
pub open spec fn alphabet() -> Seq<char> {
    Seq::new(26, |i: int| symbol_at(i))
}

/// Every symbol occurs in the alphabet, at its own ordinal.
pub proof fn lemma_alphabet_contains(c: char)
    requires
        is_symbol(c),
    ensures
        alphabet().contains(c),
        alphabet()[symbol_index(c)] == c,
{
    assert(alphabet()[symbol_index(c)] == c);
}

/// The uppercase form of `c`: lowercase ASCII letters are folded, everything
/// else is left alone.
pub open spec fn spec_upper(c: char) -> char {
    if 97 <= c as u32 <= 122 {
        ((c as u32 - 32) as u8) as char
    } else {
        c
    }
}

/// `s` with every character folded to its uppercase form.
pub open spec fn upper_of(s: Seq<char>) -> Seq<char> {
    Seq::new(s.len(), |i: int| spec_upper(s[i]))
}

/// Uppercase folding of one ASCII character, as executable code.
pub fn to_upper(c: char) -> (r: char)
    ensures
        r == spec_upper(c),
{
    let u: u32 = c as u32;
    if 97 <= u && u <= 122 {
        ((u - 32) as u8) as char
    } else {
        c
    }
}

/// Whether `c` is an alphabet symbol, as executable code.
pub fn is_alphabet_char(c: char) -> (r: bool)
    ensures
        r == is_symbol(c),
{
    let u: u32 = c as u32;
    65 <= u && u <= 90
}

/// Ordinal of an alphabet symbol, as executable code.
pub fn char_to_index(c: char) -> (i: usize)
    requires
        is_symbol(c),
    ensures
        i == symbol_index(c),
        i < 26,
{
    (c as u32 - 65) as usize
}

/// The alphabet symbol with ordinal `i`, as executable code.
pub fn index_to_char(i: usize) -> (c: char)
    requires
        i < 26,
    ensures
        c == symbol_at(i as int),
        is_symbol(c),
{
    (65 + i as u8) as char
}

/// The alphabet as an executable vector, 'A' through 'Z' in order.
pub fn alphabet_vec() -> (v: Vec<char>)
    ensures
        v@ == alphabet(),
{
    let mut v: Vec<char> = Vec::new();
    let mut i: usize = 0;
    while i < 26
        invariant
            i <= 26,
            v@ =~= alphabet().subrange(0, i as int),
        decreases 26 - i,
    {
        v.push(index_to_char(i));
        assert(v@ =~= alphabet().subrange(0, i + 1));
        i = i + 1;
    }
    assert(v@ =~= alphabet());
    v
}

} // verus!
