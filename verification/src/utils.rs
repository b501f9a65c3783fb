//! Fixed display layout tables: where each rotor window, lamp, keyboard key,
//! and plugboard socket sits in the machine's rendered frame. Rows 0-16 of
//! the frame show the top view (rotors, lamps, keyboard); rows 16 on show the
//! front view (the plugboard).

use vstd::prelude::*;

verus! {

/// The top view's character locations: the three rotor windows, the lamp
/// for each symbol (uppercase), and the keyboard key for each symbol
/// (lowercase), each as (row, column) in the frame.
pub open spec fn ascii_mapping_top() -> Seq<(char, (usize, usize))> {
    seq![
        ('1', (5, 14)), ('2', (5, 21)), ('3', (5, 28)),
        ('Q', (9, 10)), ('W', (9, 14)), ('E', (9, 18)),
        ('R', (9, 22)), ('T', (9, 26)), ('Z', (9, 30)),
        ('U', (9, 34)), ('I', (9, 38)), ('O', (9, 42)),
        ('A', (10, 12)), ('S', (10, 16)), ('D', (10, 20)),
        ('F', (10, 24)), ('G', (10, 28)), ('H', (10, 32)),
        ('J', (10, 36)), ('K', (10, 40)), ('P', (11, 10)),
        ('Y', (11, 14)), ('X', (11, 18)), ('C', (11, 22)),
        ('V', (11, 26)), ('B', (11, 30)), ('N', (11, 34)),
        ('M', (11, 38)), ('L', (11, 42)), ('q', (13, 10)),
        ('w', (13, 14)), ('e', (13, 18)), ('r', (13, 22)),
        ('t', (13, 26)), ('z', (13, 30)), ('u', (13, 34)),
        ('i', (13, 38)), ('o', (13, 42)), ('a', (14, 12)),
        ('s', (14, 16)), ('d', (14, 20)), ('f', (14, 24)),
        ('g', (14, 28)), ('h', (14, 32)), ('j', (14, 36)),
        ('k', (14, 40)), ('p', (15, 10)), ('y', (15, 14)),
        ('x', (15, 18)), ('c', (15, 22)), ('v', (15, 26)),
        ('b', (15, 30)), ('n', (15, 34)), ('m', (15, 38)),
        ('l', (15, 42)),
    ]
}

/// The front view's character locations: the plugboard socket for each
/// symbol, as (row, column) in the frame.
pub open spec fn ascii_mapping_plugboard() -> Seq<(char, (usize, usize))> {
    seq![
        ('Q', (18, 10)), ('W', (18, 14)), ('E', (18, 18)),
        ('R', (18, 22)), ('T', (18, 26)), ('Z', (18, 30)),
        ('U', (18, 34)), ('I', (18, 38)), ('O', (18, 42)),
        ('A', (20, 12)), ('S', (20, 16)), ('D', (20, 20)),
        ('F', (20, 24)), ('G', (20, 28)), ('H', (20, 32)),
        ('J', (20, 36)), ('K', (20, 40)), ('P', (22, 10)),
        ('Y', (22, 14)), ('X', (22, 18)), ('C', (22, 22)),
        ('V', (22, 26)), ('B', (22, 30)), ('N', (22, 34)),
        ('M', (22, 38)), ('L', (22, 42)),
    ]
}

/// The top view's character locations, as executable data.
pub fn load_ascii_mapping_top() -> (v: Vec<(char, (usize, usize))>)
    ensures
        v@ == ascii_mapping_top(),
{
    let v: Vec<(char, (usize, usize))> = vec![
        ('1', (5, 14)), ('2', (5, 21)), ('3', (5, 28)),
        ('Q', (9, 10)), ('W', (9, 14)), ('E', (9, 18)),
        ('R', (9, 22)), ('T', (9, 26)), ('Z', (9, 30)),
        ('U', (9, 34)), ('I', (9, 38)), ('O', (9, 42)),
        ('A', (10, 12)), ('S', (10, 16)), ('D', (10, 20)),
        ('F', (10, 24)), ('G', (10, 28)), ('H', (10, 32)),
        ('J', (10, 36)), ('K', (10, 40)), ('P', (11, 10)),
        ('Y', (11, 14)), ('X', (11, 18)), ('C', (11, 22)),
        ('V', (11, 26)), ('B', (11, 30)), ('N', (11, 34)),
        ('M', (11, 38)), ('L', (11, 42)), ('q', (13, 10)),
        ('w', (13, 14)), ('e', (13, 18)), ('r', (13, 22)),
        ('t', (13, 26)), ('z', (13, 30)), ('u', (13, 34)),
        ('i', (13, 38)), ('o', (13, 42)), ('a', (14, 12)),
        ('s', (14, 16)), ('d', (14, 20)), ('f', (14, 24)),
        ('g', (14, 28)), ('h', (14, 32)), ('j', (14, 36)),
        ('k', (14, 40)), ('p', (15, 10)), ('y', (15, 14)),
        ('x', (15, 18)), ('c', (15, 22)), ('v', (15, 26)),
        ('b', (15, 30)), ('n', (15, 34)), ('m', (15, 38)),
        ('l', (15, 42)),
    ];
    proof {
        assert(v@ =~= ascii_mapping_top());
    }
    v
}

/// The front view's character locations, as executable data.
pub fn load_ascii_mapping_plugboard() -> (v: Vec<(char, (usize, usize))>)
    ensures
        v@ == ascii_mapping_plugboard(),
{
    let v: Vec<(char, (usize, usize))> = vec![
        ('Q', (18, 10)), ('W', (18, 14)), ('E', (18, 18)),
        ('R', (18, 22)), ('T', (18, 26)), ('Z', (18, 30)),
        ('U', (18, 34)), ('I', (18, 38)), ('O', (18, 42)),
        ('A', (20, 12)), ('S', (20, 16)), ('D', (20, 20)),
        ('F', (20, 24)), ('G', (20, 28)), ('H', (20, 32)),
        ('J', (20, 36)), ('K', (20, 40)), ('P', (22, 10)),
        ('Y', (22, 14)), ('X', (22, 18)), ('C', (22, 22)),
        ('V', (22, 26)), ('B', (22, 30)), ('N', (22, 34)),
        ('M', (22, 38)), ('L', (22, 42)),
    ];
    proof {
        assert(v@ =~= ascii_mapping_plugboard());
    }
    v
}

} // verus!
