use enigma::plugboard::Plugboard;

#[test]
fn test_plug_pair_is_symmetric() {
    let mut pb = Plugboard::new();
    assert_eq!(pb.get_num_connections(), 0);
    pb.add_connection('A', 'B');
    assert_eq!(pb.permutation('A'), 'B');
    assert_eq!(pb.permutation('B'), 'A');
    assert_eq!(pb.get_num_connections(), 1);
    // An unplugged symbol passes through unchanged.
    assert_eq!(pb.permutation('C'), 'C');
}

#[test]
fn test_empty_plugboard_is_identity() {
    let mut pb = Plugboard::new();
    for i in 0..26u8 {
        let c = (b'A' + i) as char;
        assert_eq!(pb.permutation(c), c);
    }
}

#[test]
fn test_plugboard_swap_twice_returns_symbol() {
    let mut pb = Plugboard::new();
    pb.add_connection('Q', 'D');
    pb.add_connection('X', 'Z');
    for i in 0..26u8 {
        let c = (b'A' + i) as char;
        let once = pb.permutation(c);
        assert_eq!(pb.permutation(once), c);
    }
}

#[test]
fn test_plugboard_reset() {
    let mut pb = Plugboard::new();
    pb.add_connection('A', 'B');
    pb.add_connection('C', 'D');
    assert_eq!(pb.get_num_connections(), 2);
    pb.reset();
    assert_eq!(pb.get_num_connections(), 0);
    assert_eq!(pb.permutation('A'), 'A');
    assert!(pb.get_connections().iter().all(|c| c.is_none()));
}
