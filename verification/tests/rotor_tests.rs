use enigma::rotor::Rotor;

const WIRING: &str = "EKMFLGDQVZNTOWYHXUSPAIBRCJ";

#[test]
fn test_advance() {
    let mut rotor = Rotor::new(WIRING);
    assert_eq!(rotor.get_offset(), 0);

    // Test advancing and getting false (not a full rotation)
    assert_eq!(rotor.advance(), false);
    assert_eq!(rotor.get_offset(), 1);

    // Set to almost wrapped around
    while rotor.get_offset() < 25 {
        rotor.advance();
    }

    // Test advancing and getting true (full rotation)
    assert_eq!(rotor.advance(), true);
    assert_eq!(rotor.get_offset(), 0);
}

#[test]
fn test_forward_permutation() {
    let rotor = Rotor::new(WIRING);
    assert_eq!(rotor.forward_permutation('A'), 'E');
    assert_eq!(rotor.forward_permutation('Z'), 'J');
}

#[test]
fn test_reverse_permutation() {
    let rotor = Rotor::new(WIRING);
    assert_eq!(rotor.reverse_permutation('K'), 'B');
    assert_eq!(rotor.reverse_permutation('C'), 'Y');
}

#[test]
fn test_rotation_affects_permutation() {
    let mut rotor = Rotor::new(WIRING);

    // At offset 0
    let initial_mapping = rotor.forward_permutation('A');

    // Advance the rotor
    rotor.advance();

    // At offset 1, the mapping should be different
    let new_mapping = rotor.forward_permutation('A');
    assert_ne!(initial_mapping, new_mapping);
}

#[test]
fn test_full_rotation_cycle() {
    let mut rotor = Rotor::new(WIRING);
    let initial_mapping = rotor.forward_permutation('A');

    // Rotate through a full cycle (26 positions)
    for _ in 0..26 {
        rotor.advance();
    }

    // After a full rotation, the mapping should be the same
    let final_mapping = rotor.forward_permutation('A');
    assert_eq!(initial_mapping, final_mapping);
}

#[test]
fn test_reverse_inverts_forward_at_every_offset() {
    let mut rotor = Rotor::new(WIRING);
    for _ in 0..26 {
        for i in 0..26u8 {
            let c = (b'A' + i) as char;
            assert_eq!(rotor.reverse_permutation(rotor.forward_permutation(c)), c);
            assert_eq!(rotor.forward_permutation(rotor.reverse_permutation(c)), c);
        }
        rotor.advance();
    }
}

#[test]
fn test_forward_permutation_at_offset_one() {
    let mut rotor = Rotor::new(WIRING);
    rotor.advance();
    // Entry contact 1 is wired to 'K' (ordinal 10); shifted back by the
    // offset that is ordinal 9, the symbol 'J'.
    assert_eq!(rotor.forward_permutation('A'), 'J');
}

#[test]
fn test_new_folds_wiring_to_uppercase() {
    let rotor = Rotor::new("ekmflgdqvzntowyhxuspaibrcj");
    assert_eq!(rotor.forward_permutation('A'), 'E');
}
