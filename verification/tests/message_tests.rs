use enigma::message::Message;

#[test]
fn test_add_and_read() {
    let mut m = Message::new();
    assert_eq!(m.read(), "");
    m.add('H');
    m.add('I');
    // The very first symbol opens a display line.
    assert_eq!(m.read(), "\nHI");
    m.clear();
    assert_eq!(m.read(), "");
}

#[test]
fn test_display_line_breaks_every_54_characters() {
    let mut m = Message::new();
    for _ in 0..60 {
        m.add('A');
    }
    let content: Vec<char> = m.read().chars().collect();
    // One break to open the first line, one once that line is full.
    assert_eq!(content.len(), 62);
    assert_eq!(content[0], '\n');
    assert!(content[1..54].iter().all(|&c| c == 'A'));
    assert_eq!(content[54], '\n');
    assert!(content[55..].iter().all(|&c| c == 'A'));
}

#[test]
fn test_format_45_symbols() {
    let mut m = Message::new();
    for _ in 0..45 {
        m.add('A');
    }
    m.format();
    // 9 blocks of 5; the space after the 8th block (the 40th symbol) is a
    // line break; the final partial-block boundary keeps its space.
    let expected = "AAAAA AAAAA AAAAA AAAAA AAAAA AAAAA AAAAA AAAAA\nAAAAA ";
    assert_eq!(m.read_formatted(), expected);
}

#[test]
fn test_format_strips_embedded_breaks() {
    let mut m = Message::new();
    for _ in 0..60 {
        m.add('B');
    }
    m.format();
    // The two display breaks recorded by `add` vanish; only the telegram
    // grouping's own breaks remain.
    let formatted = m.read_formatted();
    assert_eq!(formatted.matches('\n').count(), 1);
    assert_eq!(formatted.chars().filter(|&c| c == 'B').count(), 60);
    assert_eq!(
        formatted,
        "BBBBB BBBBB BBBBB BBBBB BBBBB BBBBB BBBBB BBBBB\nBBBBB BBBBB BBBBB BBBBB "
    );
}

#[test]
fn test_format_keeps_content() {
    let mut m = Message::new();
    m.add('X');
    m.format();
    assert_eq!(m.read(), "\nX");
    assert_eq!(m.read_formatted(), "X");
}
