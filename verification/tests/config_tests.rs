use enigma::cli::Cli;
use enigma::config::Config;
use enigma::utils::{load_ascii_mapping_plugboard, load_ascii_mapping_top};

#[test]
fn test_config_reflects_options() {
    let c = Config::new(&Cli {
        debug_mode: true,
        secret_mode: false,
        show_instructions: true,
        animate: false,
    });
    assert!(c.is_debug());
    assert!(!c.is_display());
    assert!(!c.is_secret());
    assert!(c.should_show_instructions());
    assert!(!c.animate());
}

#[test]
fn test_display_is_off_exactly_in_debug() {
    let quiet = Config::new(&Cli {
        debug_mode: false,
        secret_mode: true,
        show_instructions: false,
        animate: true,
    });
    assert!(quiet.is_display());
    assert!(quiet.is_secret());
    assert!(quiet.animate());
}

#[test]
fn test_ascii_mappings_cover_the_views() {
    let top = load_ascii_mapping_top();
    // Three rotor windows, 26 lamps, 26 keys.
    assert_eq!(top.len(), 55);
    assert!(top.contains(&('1', (5, 14))));
    assert!(top.contains(&('Q', (9, 10))));
    assert!(top.contains(&('l', (15, 42))));

    let plugboard = load_ascii_mapping_plugboard();
    assert_eq!(plugboard.len(), 26);
    assert!(plugboard.contains(&('Q', (18, 10))));
    assert!(plugboard.contains(&('L', (22, 42))));
}
