use enigma::cli::Cli;
use enigma::config::Config;
use enigma::model::{Action, EnigmaModel, Key, Mode};
use enigma::plugboard::Plugboard;
use enigma::rotor::Rotor;

// Historic rotor wirings and the involutory reflector B.
const ROTOR_I: &str = "EKMFLGDQVZNTOWYHXUSPAIBRCJ";
const ROTOR_IV: &str = "ESOVPZJAYQUIRHXLNFTGKDCMWB";
const ROTOR_III: &str = "BDFHJLCPRTXVZNYEIWGAKMUSQO";
const REFLECTOR_B: &str = "YRUHQSLDPXNGOKMIEBFZCWVJAT";
const IDENTITY: &str = "ABCDEFGHIJKLMNOPQRSTUVWXYZ";

fn config() -> Config {
    Config::new(&Cli {
        debug_mode: false,
        secret_mode: false,
        show_instructions: false,
        animate: false,
    })
}

fn machine(r0: &str, r1: &str, r2: &str, reflector: &str) -> EnigmaModel {
    let rotors = vec![Rotor::new(r0), Rotor::new(r1), Rotor::new(r2)];
    EnigmaModel::new(rotors, Some(Rotor::new(reflector)), Plugboard::new(), config())
}

fn into_typing(m: &mut EnigmaModel) {
    let a = m.handle_wiring_key(Key::Enter);
    assert!(matches!(a, Action::PendingPlugDiscarded(None)));
    assert_eq!(m.get_mode(), Mode::Typing);
}

#[test]
fn test_starts_in_wiring_mode() {
    let m = machine(ROTOR_I, ROTOR_IV, ROTOR_III, REFLECTOR_B);
    assert_eq!(m.get_mode(), Mode::WiringPlugboard);
    assert_eq!(m.get_pending_plug(), None);
    assert_eq!(m.num_rotors(), 3);
}

#[test]
fn test_wiring_pairs_two_letters() {
    let mut m = machine(ROTOR_I, ROTOR_IV, ROTOR_III, REFLECTOR_B);
    // Lowercase input is folded; the first letter becomes the pending plug.
    let a = m.handle_wiring_key(Key::Char('a'));
    assert!(matches!(a, Action::PendingPlugMarked('A')));
    assert_eq!(m.get_pending_plug(), Some('A'));
    // The pending letter itself is ignored (no self-pair).
    let a = m.handle_wiring_key(Key::Char('A'));
    assert!(matches!(a, Action::Ignored));
    // A second letter completes the pair.
    let a = m.handle_wiring_key(Key::Char('B'));
    assert!(matches!(a, Action::PlugPairAdded('A', 'B')));
    assert_eq!(m.get_pending_plug(), None);
    // Both letters are now used and further presses of them are ignored.
    let a = m.handle_wiring_key(Key::Char('B'));
    assert!(matches!(a, Action::Ignored));
    let conns = m.plugboard_connections();
    assert_eq!(conns[0], Some('B'));
    assert_eq!(conns[1], Some('A'));
    assert_eq!(m.get_mode(), Mode::WiringPlugboard);
}

#[test]
fn test_wiring_ignores_non_letters() {
    let mut m = machine(ROTOR_I, ROTOR_IV, ROTOR_III, REFLECTOR_B);
    let a = m.handle_wiring_key(Key::Char('!'));
    assert!(matches!(a, Action::Ignored));
    let a = m.handle_wiring_key(Key::Other);
    assert!(matches!(a, Action::Ignored));
    assert_eq!(m.get_mode(), Mode::WiringPlugboard);
}

#[test]
fn test_wiring_enter_discards_pending_and_enters_typing() {
    let mut m = machine(ROTOR_I, ROTOR_IV, ROTOR_III, REFLECTOR_B);
    m.handle_wiring_key(Key::Char('Q'));
    assert_eq!(m.get_pending_plug(), Some('Q'));
    let a = m.handle_wiring_key(Key::Enter);
    assert!(matches!(a, Action::PendingPlugDiscarded(Some('Q'))));
    assert_eq!(m.get_pending_plug(), None);
    assert_eq!(m.get_mode(), Mode::Typing);
}

#[test]
fn test_wiring_esc_cancels_all() {
    let mut m = machine(ROTOR_I, ROTOR_IV, ROTOR_III, REFLECTOR_B);
    m.handle_wiring_key(Key::Char('A'));
    m.handle_wiring_key(Key::Char('B'));
    let a = m.handle_wiring_key(Key::Esc);
    assert!(matches!(a, Action::PlugboardCleared));
    assert_eq!(m.get_mode(), Mode::Typing);
    assert!(m.plugboard_connections().iter().all(|c| c.is_none()));
}

#[test]
fn test_wiring_cap_exits_to_typing() {
    let mut m = machine(ROTOR_I, ROTOR_IV, ROTOR_III, REFLECTOR_B);
    // Wire the full ten pairs: A-B, C-D, ..., S-T.
    for i in 0..20u8 {
        let a = m.handle_wiring_key(Key::Char((b'A' + i) as char));
        if i % 2 == 0 {
            assert!(matches!(a, Action::PendingPlugMarked(_)));
        } else {
            assert!(matches!(a, Action::PlugPairAdded(_, _)));
        }
    }
    assert_eq!(m.get_mode(), Mode::WiringPlugboard);
    // The cap is reached: the next key is swallowed and wiring ends; an
    // eleventh pair never reaches the plugboard.
    let a = m.handle_wiring_key(Key::Char('U'));
    assert!(matches!(a, Action::PendingPlugDiscarded(None)));
    assert_eq!(m.get_mode(), Mode::Typing);
    let conns = m.plugboard_connections();
    assert_eq!(conns.iter().filter(|c| c.is_some()).count(), 20);
    assert_eq!(conns[20], None); // 'U' was never wired
}

#[test]
fn test_typing_esc_terminates() {
    let mut m = machine(ROTOR_I, ROTOR_IV, ROTOR_III, REFLECTOR_B);
    into_typing(&mut m);
    let a = m.handle_typing_key(Key::Esc);
    assert!(matches!(a, Action::Quit));
    assert_eq!(m.get_mode(), Mode::Terminated);
}

#[test]
fn test_typing_records_enciphered_symbols() {
    let mut m = machine(IDENTITY, IDENTITY, IDENTITY, IDENTITY);
    into_typing(&mut m);
    // Identity wiring is the identity permutation at every offset, so the
    // machine echoes each symbol whatever the rotors' positions.
    let a = m.handle_typing_key(Key::Char('h'));
    assert!(matches!(a, Action::Enciphered('H', 'H')));
    let a = m.handle_typing_key(Key::Char('I'));
    assert!(matches!(a, Action::Enciphered('I', 'I')));
    assert_eq!(m.read_message(), "\nHI");
}

#[test]
fn test_typing_ignores_other_input() {
    let mut m = machine(ROTOR_I, ROTOR_IV, ROTOR_III, REFLECTOR_B);
    into_typing(&mut m);
    let before = m.get_rotor_letter(2);
    let a = m.handle_typing_key(Key::Char('@'));
    assert!(matches!(a, Action::Ignored));
    let a = m.handle_typing_key(Key::Other);
    assert!(matches!(a, Action::Ignored));
    assert_eq!(m.get_rotor_letter(2), before);
    assert_eq!(m.read_message(), "");
}

#[test]
fn test_manual_rotate_turns_one_rotor() {
    let mut m = machine(ROTOR_I, ROTOR_IV, ROTOR_III, REFLECTOR_B);
    into_typing(&mut m);
    let a = m.handle_typing_key(Key::Char('1'));
    assert!(matches!(a, Action::RotorTurned(0)));
    assert_eq!(m.get_rotor_letter(0), 'B');
    assert_eq!(m.get_rotor_letter(1), 'A');
    assert_eq!(m.get_rotor_letter(2), 'A');
    // A manual turn neither enciphers nor records anything.
    assert_eq!(m.read_message(), "");
}

#[test]
fn test_carry_propagation_over_26_keypresses() {
    let mut m = machine(ROTOR_I, ROTOR_IV, ROTOR_III, REFLECTOR_B);
    into_typing(&mut m);
    for _ in 0..26 {
        let a = m.handle_typing_key(Key::Char('A'));
        assert!(matches!(a, Action::Enciphered('A', _)));
    }
    // The fastest rotor came full circle, the middle rotor advanced exactly
    // once, the slowest never moved.
    assert_eq!(m.get_rotor_letter(2), 'A');
    assert_eq!(m.get_rotor_letter(1), 'B');
    assert_eq!(m.get_rotor_letter(0), 'A');
}

#[test]
fn test_round_trip_at_fixed_rotor_state() {
    let mut m = machine(ROTOR_I, ROTOR_IV, ROTOR_III, REFLECTOR_B);
    // key_press enciphers without stepping the rotors, so enciphering the
    // result at the same state must give the original symbol back.
    for i in 0..26u8 {
        let c = (b'A' + i) as char;
        let out = m.key_press(c);
        let back = m.key_press(out);
        assert_eq!(back, c);
        // A reflector-based machine never maps a symbol to itself.
        assert_ne!(out, c);
    }
}

#[test]
fn test_known_ciphertext() {
    let mut m = machine(ROTOR_I, ROTOR_IV, ROTOR_III, REFLECTOR_B);
    into_typing(&mut m);
    let mut ciphertext = String::new();
    for c in "HELLO".chars() {
        match m.handle_typing_key(Key::Char(c)) {
            Action::Enciphered(input, output) => {
                assert_eq!(input, c);
                ciphertext.push(output);
            }
            _ => panic!("expected an enciphered symbol"),
        }
    }
    assert_eq!(ciphertext, "UHMHN");
    // The same letter twice never enciphers the same way: the odometer
    // stepped between the two 'L' presses.
    assert_ne!(ciphertext.chars().nth(2), ciphertext.chars().nth(3));
}

#[test]
fn test_plugboard_swaps_at_both_ends_of_the_path() {
    let mut with_plug = machine(ROTOR_I, ROTOR_IV, ROTOR_III, REFLECTOR_B);
    // Wire H-X, then leave wiring mode.
    with_plug.handle_wiring_key(Key::Char('H'));
    with_plug.handle_wiring_key(Key::Char('X'));
    into_typing(&mut with_plug);
    let mut plain = machine(ROTOR_I, ROTOR_IV, ROTOR_III, REFLECTOR_B);
    into_typing(&mut plain);
    // Typing 'H' with the plug equals typing 'X' without it, unless the
    // plain machine's lamp is itself part of the pair.
    let a = with_plug.handle_typing_key(Key::Char('H'));
    let b = plain.handle_typing_key(Key::Char('X'));
    match (a, b) {
        (Action::Enciphered(_, swapped_out), Action::Enciphered(_, plain_out)) => {
            assert!(plain_out != 'H' && plain_out != 'X');
            assert_eq!(swapped_out, plain_out);
        }
        _ => panic!("expected enciphered symbols"),
    }
}

#[test]
fn test_commit_formats_and_wipes() {
    let mut m = machine(IDENTITY, IDENTITY, IDENTITY, IDENTITY);
    into_typing(&mut m);
    for _ in 0..7 {
        m.handle_typing_key(Key::Char('S'));
    }
    let a = m.handle_typing_key(Key::Enter);
    match a {
        Action::Committed(text) => assert_eq!(text, "SSSSS SS"),
        _ => panic!("expected the committed message"),
    }
    assert_eq!(m.read_message(), "");
    assert_eq!(m.get_mode(), Mode::Typing);
}

#[test]
fn test_commit_of_empty_message() {
    let mut m = machine(ROTOR_I, ROTOR_IV, ROTOR_III, REFLECTOR_B);
    into_typing(&mut m);
    match m.handle_typing_key(Key::Enter) {
        Action::Committed(text) => assert_eq!(text, ""),
        _ => panic!("expected the committed message"),
    }
    assert_eq!(m.get_mode(), Mode::Typing);
}

#[test]
fn test_machine_without_reflector_echoes() {
    // With no reflector the reverse pass undoes the forward pass exactly,
    // so the machine echoes every symbol whatever the rotor wirings.
    let rotors = vec![Rotor::new(ROTOR_I), Rotor::new(ROTOR_IV), Rotor::new(ROTOR_III)];
    let mut m = EnigmaModel::new(rotors, None, Plugboard::new(), config());
    for i in 0..26u8 {
        let c = (b'A' + i) as char;
        assert_eq!(m.key_press(c), c);
    }
}
