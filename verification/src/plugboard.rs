//! The plugboard: an operator-configured partial involution over the
//! alphabet. Each symbol has at most one partner, pairs are symmetric, no
//! symbol pairs with itself, and at most `MAX_PLUGS` pairs exist at once.

use vstd::prelude::*;

use crate::{MAX_PLUGS, char_to_index, is_symbol, symbol_at, symbol_index};

verus! {

/// How many entries of `s` hold a partner.
pub open spec fn count_plugged(s: Seq<Option<char>>) -> int
    decreases s.len(),
{
    if s.len() == 0 {
        0
    } else {
        count_plugged(s.drop_last()) + if s.last() is Some {
            1int
        } else {
            0int
        }
    }
}

/// Replacing one entry changes the plugged count by the difference the two
/// entries contribute.
pub proof fn lemma_count_plugged_update(s: Seq<Option<char>>, i: int, v: Option<char>)
    requires
        0 <= i < s.len(),
    ensures
        count_plugged(s.update(i, v)) == count_plugged(s)
            - (if s[i] is Some { 1int } else { 0int })
            + (if v is Some { 1int } else { 0int }),
    decreases s.len(),
{
    if i == s.len() - 1 {
        assert(s.update(i, v).drop_last() =~= s.drop_last());
    } else {
        assert(s.update(i, v).drop_last() =~= s.drop_last().update(i, v));
        lemma_count_plugged_update(s.drop_last(), i, v);
    }
}

/// An operator-wired set of symmetric symbol pairs, capped at `MAX_PLUGS`.
#[derive(Debug)]
pub struct Plugboard {
    connections: Vec<Option<char>>,
    num_connections: usize,
}

impl Plugboard {
    /// The partner table: entry `i` holds the partner of the symbol with
    /// ordinal `i`, if that symbol is plugged.
    pub closed spec fn partners(self) -> Seq<Option<char>> {
        self.connections@
    }

    /// The number of established pairs.
    pub closed spec fn spec_count(self) -> int {
        self.num_connections as int
    }

    /// Whether `c` currently participates in a pair.
    pub open spec fn is_connected(self, c: char) -> bool {
        self.partners()[symbol_index(c)] is Some
    }

    /// Well-formed plugboard: one entry per alphabet symbol; every recorded
    /// partner is a symbol, differs from its owner, and points back
    /// (symmetry); the pair count matches the table and stays under the cap.
    pub open spec fn wf(self) -> bool {
        &&& self.partners().len() == 26
        &&& 0 <= self.spec_count() <= MAX_PLUGS
        &&& 2 * self.spec_count() == count_plugged(self.partners())
        &&& forall|i: int| 0 <= i < 26 ==> match #[trigger] self.partners()[i] {
            Some(c) => is_symbol(c) && symbol_index(c) != i
                && self.partners()[symbol_index(c)] == Some(symbol_at(i)),
            None => true,
        }
    }

    /// What `permutation` returns: the partner if one exists, else the
    /// symbol unchanged.
    pub open spec fn spec_permutation(self, c: char) -> char {
        match self.partners()[symbol_index(c)] {
            Some(out_c) => out_c,
            None => c,
        }
    }

    /// An empty plugboard: no pairs.
    pub fn new() -> (pb: Plugboard)
        ensures
            pb.wf(),
            pb.spec_count() == 0,
            forall|i: int| 0 <= i < 26 ==> #[trigger] pb.partners()[i] is None,
    {
        Plugboard { connections: empty_partner_table(), num_connections: 0 }
    }

    /// The partner table, for display.
    pub fn get_connections(&self) -> (r: &Vec<Option<char>>)
        ensures
            r@ == self.partners(),
    {
        &self.connections
    }

    /// The number of established pairs.
    pub fn get_num_connections(&self) -> (n: usize)
        ensures
            n == self.spec_count(),
    {
        self.num_connections
    }

    /// Record the symmetric pair `c1`–`c2` and count it. Callers must keep
    /// the pair legal: two distinct, unplugged symbols, under the cap; the
    /// input state machine guards every call.
    pub fn add_connection(&mut self, c1: char, c2: char)
        requires
            old(self).wf(),
            is_symbol(c1),
            is_symbol(c2),
            c1 != c2,
            !old(self).is_connected(c1),
            !old(self).is_connected(c2),
            old(self).spec_count() < MAX_PLUGS,
        ensures
            final(self).wf(),
            final(self).partners() == old(self).partners()
                .update(symbol_index(c1), Some(c2)).update(symbol_index(c2), Some(c1)),
            final(self).spec_count() == old(self).spec_count() + 1,
            final(self).spec_permutation(c1) == c2,
            final(self).spec_permutation(c2) == c1,
            forall|c: char| is_symbol(c) && c != c1 && c != c2
                ==> final(self).spec_permutation(c) == old(self).spec_permutation(c),
    {
        let i1: usize = char_to_index(c1);
        let i2: usize = char_to_index(c2);
        proof {
            lemma_count_plugged_update(self.partners(), i1 as int, Some(c2));
            lemma_count_plugged_update(self.partners().update(i1 as int, Some(c2)), i2 as int, Some(c1));
        }
        self.connections.set(i1, Some(c2));
        self.connections.set(i2, Some(c1));
        self.num_connections = self.num_connections + 1;
        proof {
            crate::lemma_symbol_index_roundtrip(c1, symbol_index(c2));
            crate::lemma_symbol_index_roundtrip(c2, symbol_index(c1));
            assert forall|c: char| is_symbol(c) && c != c1 && c != c2
                implies self.spec_permutation(c) == old(self).spec_permutation(c) by {
                crate::lemma_symbol_index_roundtrip(c, 0);
                crate::lemma_symbol_index_roundtrip(c1, 0);
                crate::lemma_symbol_index_roundtrip(c2, 0);
            }
        }
    }

    /// The symbol `in_c` is swapped to: its partner if plugged, else itself.
    pub fn permutation(&mut self, in_c: char) -> (out_c: char)
        requires
            old(self).wf(),
            is_symbol(in_c),
        ensures
            *final(self) == *old(self),
            out_c == old(self).spec_permutation(in_c),
            is_symbol(out_c),
    {
        let i: usize = char_to_index(in_c);
        match self.connections[i] {
            Some(out_c) => out_c,
            None => in_c,
        }
    }

    /// Clear all connections.
    pub fn reset(&mut self)
        ensures
            final(self).wf(),
            final(self).spec_count() == 0,
            forall|i: int| 0 <= i < 26 ==> #[trigger] final(self).partners()[i] is None,
    {
        self.connections = empty_partner_table();
        self.num_connections = 0;
    }
}

/// A partner table with no pairs.
fn empty_partner_table() -> (v: Vec<Option<char>>)
    ensures
        v@.len() == 26,
        forall|i: int| 0 <= i < 26 ==> #[trigger] v@[i] is None,
        count_plugged(v@) == 0,
{
    let mut v: Vec<Option<char>> = Vec::new();
    let mut i: usize = 0;
    while i < 26
        invariant
            i <= 26,
            v@.len() == i,
            forall|k: int| 0 <= k < i ==> #[trigger] v@[k] is None,
            count_plugged(v@) == 0,
        decreases 26 - i,
    {
        let ghost prev = v@;
        v.push(None);
        assert(v@.drop_last() =~= prev);
        i = i + 1;
    }
    v
}

/// A symbol appears as someone's partner exactly when it is itself plugged:
/// that is the plugboard's symmetry.
pub proof fn lemma_connected_iff_contains(pb: Plugboard, c: char)
    requires
        pb.wf(),
        is_symbol(c),
    ensures
        (exists|i: int| 0 <= i < 26 && pb.partners()[i] == Some(c)) <==> pb.is_connected(c),
{
    crate::lemma_symbol_index_roundtrip(c, 0);
    if pb.is_connected(c) {
        let o = pb.partners()[symbol_index(c)].unwrap();
        assert(pb.partners()[symbol_index(o)] == Some(symbol_at(symbol_index(c))));
        assert(pb.partners()[symbol_index(o)] == Some(c));
    }
    if exists|i: int| 0 <= i < 26 && pb.partners()[i] == Some(c) {
        let i = choose|i: int| 0 <= i < 26 && pb.partners()[i] == Some(c);
        assert(pb.partners()[symbol_index(c)] == Some(symbol_at(i)));
    }
}

/// Law: the plugboard is a partial involution — swapping twice returns every
/// symbol to itself, whatever pairs are wired.
pub proof fn lemma_plugboard_involution(pb: Plugboard, c: char)
    requires
        pb.wf(),
        is_symbol(c),
    ensures
        pb.spec_permutation(pb.spec_permutation(c)) == c,
{
    crate::lemma_symbol_index_roundtrip(c, 0);
}

} // verus!
