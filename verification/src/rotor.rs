//! The rotor: an immutable wiring permutation over the alphabet together with
//! a mutable rotational offset. A reflector is a rotor whose offset is never
//! advanced. The forward and reverse permutations are each other's inverses at
//! every fixed offset; that inverse relationship is the central invariant of
//! the model.

use vstd::prelude::*;

use crate::{alphabet, alphabet_vec, char_to_index, index_to_char, is_symbol, lemma_alphabet_contains, lemma_symbol_index_roundtrip, symbol_at, symbol_index, to_upper, upper_of};

verus! {

/// Index of the first occurrence of `c` in `s` (meaningful only when `s`
/// contains `c`).
pub open spec fn position_of(s: Seq<char>, c: char) -> int
    decreases s.len(),
{
    if s.len() == 0 {
        0
    } else if s[0] == c {
        0
    } else {
        1 + position_of(s.subrange(1, s.len() as int), c)
    }
}

/// When `s` contains `c`, `position_of` names a position that holds `c`.
pub proof fn lemma_position_of_contains(s: Seq<char>, c: char)
    requires
        s.contains(c),
    ensures
        0 <= position_of(s, c) < s.len(),
        s[position_of(s, c)] == c,
    decreases s.len(),
{
    if s[0] != c {
        let i = choose|i: int| 0 <= i < s.len() && s[i] == c;
        assert(s.subrange(1, s.len() as int)[i - 1] == c);
        lemma_position_of_contains(s.subrange(1, s.len() as int), c);
    }
}

/// `position_of` finds the first occurrence: a position that holds `c` with
/// no occurrence before it is the one named.
pub proof fn lemma_position_of_first(s: Seq<char>, c: char, j: int)
    requires
        0 <= j < s.len(),
        s[j] == c,
        forall|k: int| 0 <= k < j ==> s[k] != c,
    ensures
        position_of(s, c) == j,
    decreases j,
{
    if j > 0 {
        lemma_position_of_first(s.subrange(1, s.len() as int), c, j - 1);
    }
}

/// Scan for the first occurrence of `c` in `seq`.
fn find_position(seq: &[char], c: char) -> (r: Option<usize>)
    ensures
        match r {
            Some(i) => i < seq@.len() && seq@[i as int] == c && i == position_of(seq@, c),
            None => !seq@.contains(c),
        },
{
    let n: usize = seq.len();
    let mut i: usize = 0;
    while i < n
        invariant
            n == seq@.len(),
            i <= n,
            forall|k: int| 0 <= k < i ==> seq@[k] != c,
        decreases n - i,
    {
        if seq[i] == c {
            proof {
                lemma_position_of_first(seq@, c, i as int);
            }
            return Some(i);
        }
        i = i + 1;
    }
    None
}

/// A wiring string is a permutation of the alphabet: 26 symbols, each letter
/// exactly once.
pub open spec fn is_wiring(s: Seq<char>) -> bool {
    &&& s.len() == 26
    &&& forall|i: int| 0 <= i < 26 ==> is_symbol(#[trigger] s[i])
    &&& forall|i: int, j: int| 0 <= i < j < 26 ==> s[i] != s[j]
    &&& forall|c: char| is_symbol(c) ==> #[trigger] s.contains(c)
}

/// In a wiring, `position_of` inverts indexing.
pub proof fn lemma_position_of_wiring(s: Seq<char>, j: int)
    requires
        is_wiring(s),
        0 <= j < 26,
    ensures
        position_of(s, s[j]) == j,
{
    assert forall|k: int| 0 <= k < j implies s[k] != s[j] by {}
    lemma_position_of_first(s, s[j], j);
}

/// One step of the signal path through a rotor, as the machine computes it:
/// enter at the contact shifted by the offset, read the wired symbol out of
/// `outp`, locate it in `inp`, and shift back by the offset.
pub open spec fn spec_apply(off: int, inp: Seq<char>, outp: Seq<char>, c: char) -> char {
    let entry = (symbol_index(c) + off) % 26;
    let wired = outp[entry];
    let out = position_of(inp, wired);
    symbol_at((out - off + 26) % 26)
}

/// In the alphabet, `position_of` is the symbol's own ordinal.
pub proof fn lemma_position_of_alphabet(c: char)
    requires
        is_symbol(c),
    ensures
        position_of(alphabet(), c) == symbol_index(c),
{
    lemma_symbol_index_roundtrip(c, 0);
    assert forall|k: int| 0 <= k < symbol_index(c) implies alphabet()[k] != c by {
        lemma_symbol_index_roundtrip(c, k);
    }
    lemma_position_of_first(alphabet(), c, symbol_index(c));
}

/// The offset after one advance.
pub open spec fn advance_offset(o: int) -> int {
    (o + 1) % 26
}

/// The offset after `n` advances.
pub open spec fn advance_n(o: int, n: nat) -> int
    decreases n,
{
    if n == 0 {
        o
    } else {
        advance_offset(advance_n(o, (n - 1) as nat))
    }
}

/// Advancing `n` times moves the offset by `n`, wrapping around.
pub proof fn lemma_advance_n(o: int, n: nat)
    requires
        0 <= o < 26,
    ensures
        advance_n(o, n) == (o + n) % 26,
        0 <= advance_n(o, n) < 26,
    decreases n,
{
    if n > 0 {
        lemma_advance_n(o, (n - 1) as nat);
        vstd::arithmetic::div_mod::lemma_add_mod_noop(o + n - 1, 1, 26);
        vstd::arithmetic::div_mod::lemma_mod_self_0(26);
        vstd::arithmetic::div_mod::lemma_small_mod(1nat, 26nat);
    }
}

/// A rotating substitution permutation: a fixed wiring and a rotational
/// offset in [0, 26).
#[derive(Debug)]
pub struct Rotor {
    permutation: Vec<char>,
    offset: usize,
}

impl Rotor {
    /// The rotor's wiring, as a sequence of symbols.
    pub closed spec fn wiring(self) -> Seq<char> {
        self.permutation@
    }

    /// The rotor's current rotational offset.
    pub closed spec fn spec_offset(self) -> int {
        self.offset as int
    }

    /// Well-formed rotor: the wiring is a permutation of the alphabet and the
    /// offset is a valid position.
    pub open spec fn wf(self) -> bool {
        &&& is_wiring(self.wiring())
        &&& 0 <= self.spec_offset() < 26
    }

    /// What `forward_permutation` returns: the wiring applied left to right.
    pub open spec fn forward_spec(self, c: char) -> char {
        spec_apply(self.spec_offset(), alphabet(), self.wiring(), c)
    }

    /// What `reverse_permutation` returns: the wiring applied right to left.
    pub open spec fn reverse_spec(self, c: char) -> char {
        spec_apply(self.spec_offset(), self.wiring(), alphabet(), c)
    }

    /// Build a rotor at offset 0 from a wiring string, folding it to
    /// uppercase. The string must spell a permutation of the alphabet;
    /// rejecting violated wiring is the configuration loader's duty.
    pub fn new(perm_str: &str) -> (r: Rotor)
        requires
            perm_str@.len() == 26,
            is_wiring(upper_of(perm_str@)),
        ensures
            r.wf(),
            r.wiring() == upper_of(perm_str@),
            r.spec_offset() == 0,
    {
        let mut permutation: Vec<char> = Vec::new();
        let mut i: usize = 0;
        while i < 26
            invariant
                perm_str@.len() == 26,
                i <= 26,
                permutation@ =~= upper_of(perm_str@).subrange(0, i as int),
            decreases 26 - i,
        {
            permutation.push(to_upper(perm_str.get_char(i)));
            assert(permutation@ =~= upper_of(perm_str@).subrange(0, i + 1));
            i = i + 1;
        }
        assert(permutation@ =~= upper_of(perm_str@));
        Rotor { permutation, offset: 0 }
    }

    /// The current offset.
    pub fn get_offset(&self) -> (o: usize)
        ensures
            o == self.spec_offset(),
    {
        self.offset
    }

    /// Move the offset one position onward, wrapping at the end; report
    /// whether the rotor completed a full revolution (wrapped back to 0).
    pub fn advance(&mut self) -> (full_revolution: bool)
        requires
            old(self).wf(),
        ensures
            final(self).wf(),
            final(self).wiring() == old(self).wiring(),
            final(self).spec_offset() == (old(self).spec_offset() + 1) % 26,
            full_revolution == (final(self).spec_offset() == 0),
    {
        self.offset = (self.offset + 1) % 26;
        self.offset == 0
    }

    /// Apply the rotor's permutation in the forward direction.
    pub fn forward_permutation(&self, input_char: char) -> (r: char)
        requires
            self.wf(),
            is_symbol(input_char),
        ensures
            r == self.forward_spec(input_char),
            is_symbol(r),
    {
        let alpha: Vec<char> = alphabet_vec();
        proof {
            let entry = (symbol_index(input_char) + self.spec_offset()) % 26;
            lemma_alphabet_contains(self.wiring()[entry]);
        }
        self.apply_permutation(input_char, alpha.as_slice(), self.permutation.as_slice())
    }

    /// Apply the rotor's permutation in the reverse direction.
    pub fn reverse_permutation(&self, input_char: char) -> (r: char)
        requires
            self.wf(),
            is_symbol(input_char),
        ensures
            r == self.reverse_spec(input_char),
            is_symbol(r),
    {
        let alpha: Vec<char> = alphabet_vec();
        proof {
            let entry = (symbol_index(input_char) + self.spec_offset()) % 26;
            lemma_symbol_index_roundtrip(input_char, entry);
        }
        self.apply_permutation(input_char, self.permutation.as_slice(), alpha.as_slice())
    }

    /// Apply one permutation step: offset the entry contact, look the symbol
    /// up in `output_seq`, locate it in `input_seq`, and undo the offset.
    pub fn apply_permutation(&self, input_char: char, input_seq: &[char], output_seq: &[char]) -> (r: char)
        requires
            0 <= self.spec_offset() < 26,
            is_symbol(input_char),
            input_seq@.len() == 26,
            output_seq@.len() == 26,
            input_seq@.contains(output_seq@[(symbol_index(input_char) + self.spec_offset()) % 26]),
        ensures
            r == spec_apply(self.spec_offset(), input_seq@, output_seq@, input_char),
            is_symbol(r),
    {
        // Position of the input character in the alphabet.
        let in_index: usize = char_to_index(input_char);

        // Apply the offset and wrap around.
        let perm_index: usize = (in_index + self.offset) % 26;

        // The symbol wired to that contact.
        let perm_char: char = output_seq[perm_index];

        // Position of this symbol in the input sequence.
        proof {
            lemma_position_of_contains(input_seq@, perm_char);
        }
        let out_index: usize = match find_position(input_seq, perm_char) {
            Some(i) => i,
            None => 0,
        };

        // Undo the offset, wrapping around when negative.
        let final_index: usize = (out_index + 26 - self.offset) % 26;
        index_to_char(final_index)
    }
}

/// The forward permutation of a well-formed rotor sends symbols to symbols.
pub proof fn lemma_forward_symbol(r: Rotor, c: char)
    requires
        r.wf(),
        is_symbol(c),
    ensures
        is_symbol(r.forward_spec(c)),
        is_symbol(r.reverse_spec(c)),
{
    let off = r.spec_offset();
    let entry = (symbol_index(c) + off) % 26;
    lemma_alphabet_contains(r.wiring()[entry]);
    lemma_position_of_contains(alphabet(), r.wiring()[entry]);
    lemma_symbol_index_roundtrip(c, (position_of(alphabet(), r.wiring()[entry]) - off + 26) % 26);
    assert(r.wiring().contains(symbol_at(entry))) by {
        lemma_symbol_index_roundtrip(c, entry);
    }
    lemma_position_of_contains(r.wiring(), symbol_at(entry));
    lemma_symbol_index_roundtrip(c, (position_of(r.wiring(), symbol_at(entry)) - off + 26) % 26);
}

/// Law: at any fixed offset, the reverse permutation inverts the forward one,
/// for every wiring and every alphabet symbol — even when the wiring is not
/// an involution.
pub proof fn lemma_reverse_inverts_forward(r: Rotor, c: char)
    requires
        r.wf(),
        is_symbol(c),
    ensures
        r.reverse_spec(r.forward_spec(c)) == c,
{
    let off = r.spec_offset();
    let w = r.wiring();
    let i = symbol_index(c);
    let entry = (i + off) % 26;
    let wired = w[entry];
    lemma_position_of_alphabet(wired);
    let out1 = (symbol_index(wired) - off + 26) % 26;
    let c1 = symbol_at(out1);
    assert(r.forward_spec(c) == c1);
    lemma_symbol_index_roundtrip(wired, out1);
    // Entering the reverse pass at c1 lands on the same contact again.
    assert((out1 + off) % 26 == symbol_index(wired));
    assert(alphabet()[symbol_index(wired)] == wired);
    lemma_position_of_wiring(w, entry);
    assert((entry - off + 26) % 26 == i);
    lemma_symbol_index_roundtrip(c, i);
}

/// Law: at any fixed offset, the forward permutation also inverts the
/// reverse one.
pub proof fn lemma_forward_inverts_reverse(r: Rotor, c: char)
    requires
        r.wf(),
        is_symbol(c),
    ensures
        r.forward_spec(r.reverse_spec(c)) == c,
{
    let off = r.spec_offset();
    let w = r.wiring();
    let i = symbol_index(c);
    let entry = (i + off) % 26;
    let wired = symbol_at(entry);
    lemma_symbol_index_roundtrip(c, entry);
    assert(w.contains(wired));
    lemma_position_of_contains(w, wired);
    let p = position_of(w, wired);
    let out1 = (p - off + 26) % 26;
    let c1 = symbol_at(out1);
    assert(r.reverse_spec(c) == c1);
    lemma_symbol_index_roundtrip(c, out1);
    // Entering the forward pass at c1 lands on the same wiring contact.
    assert((out1 + off) % 26 == p);
    assert(w[p] == wired);
    lemma_position_of_alphabet(wired);
    assert(position_of(alphabet(), wired) == entry);
    assert((entry - off + 26) % 26 == i);
    lemma_symbol_index_roundtrip(c, i);
}

/// Whether a rotor's forward permutation is its own inverse. Reflectors are
/// typically wired this way, though the model does not require it of them.
pub open spec fn is_involution(r: Rotor) -> bool {
    forall|c: char| is_symbol(c) ==> r.forward_spec(#[trigger] r.forward_spec(c)) == c
}

/// Law: after exactly 26 advances a rotor has come full circle, and its
/// forward permutation is what it was before.
pub proof fn lemma_full_rotation_cycle(before: Rotor, after: Rotor, c: char)
    requires
        before.wf(),
        after.wf(),
        after.wiring() == before.wiring(),
        after.spec_offset() == advance_n(before.spec_offset(), 26),
        is_symbol(c),
    ensures
        after.spec_offset() == before.spec_offset(),
        after.forward_spec(c) == before.forward_spec(c),
{
    lemma_advance_n(before.spec_offset(), 26);
}

} // verus!
