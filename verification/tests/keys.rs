use agents_mon::keys::{escape_key, key_packet, read_key, read_search_key, resume, Decode, Key};

/// The key that the bytes stand for, with nothing behind them.
fn decode(bytes: &[u8], search: bool) -> Key {
    let mut it = bytes.iter().copied();
    let mut d = if search { read_search_key(it.next()) } else { read_key(it.next()) };
    loop {
        match d {
            Decode::Done(k) => return k,
            Decode::More(p) => d = resume(p, it.next()),
        }
    }
}

#[test]
fn arrows_work_in_both_cursor_key_modes() {
    for seq in [b"\x1b[A".as_slice(), b"\x1bOA".as_slice()] {
        assert!(matches!(decode(seq, false), Key::Up), "up: {seq:?}");
    }
    for seq in [b"\x1b[B".as_slice(), b"\x1bOB".as_slice()] {
        assert!(matches!(decode(seq, false), Key::Down), "down: {seq:?}");
    }
    assert!(matches!(decode(b"j", false), Key::Down));
    assert!(matches!(decode(b"u", false), Key::Versions));
    assert!(matches!(decode(&[0, b'q'], false), Key::Text(s) if s == "q"));
}

#[test]
fn escape_tails_decode_in_both_cursor_key_modes() {
    assert!(matches!(escape_key(&vec![Some(b'['), Some(b'A')]), Key::Up));
    assert!(matches!(escape_key(&vec![Some(b'['), Some(b'B')]), Key::Down));
    assert!(matches!(escape_key(&vec![Some(b'O'), Some(b'A')]), Key::Up)); // SS3
    assert!(matches!(escape_key(&vec![Some(b'O'), Some(b'B')]), Key::Down));
    assert!(matches!(escape_key(&vec![]), Key::AllStates)); // bare Esc resets
    assert!(matches!(escape_key(&vec![None]), Key::AllStates));
    // a tail that never completes is not a close — Esc already decided that
    assert!(matches!(escape_key(&vec![Some(b'['), None]), Key::Other));
    assert!(matches!(escape_key(&vec![Some(b'['), Some(b'Z')]), Key::Other));
}

#[test]
fn bare_esc_clears_filters() {
    assert!(matches!(decode(&[0x1b], false), Key::AllStates));
}

#[test]
fn every_key_has_its_byte() {
    assert!(matches!(decode(b"k", false), Key::Up));
    assert!(matches!(decode(b"q", false), Key::Quit));
    assert!(matches!(decode(&[3], false), Key::Quit));
    assert!(matches!(decode(&[4], false), Key::Quit));
    assert!(matches!(decode(&[], false), Key::Quit));
    assert!(matches!(decode(b"Q", false), Key::Close));
    assert!(matches!(decode(b"l", false), Key::Jump));
    assert!(matches!(decode(b"\r", false), Key::Jump));
    assert!(matches!(decode(b"\n", false), Key::Jump));
    assert!(matches!(decode(b"?", false), Key::Help));
    assert!(matches!(decode(b"/", false), Key::Search));
    assert!(matches!(decode(b"f", false), Key::CycleState));
    assert!(matches!(decode(&[0x0c], false), Key::AllStates));
    assert!(matches!(decode(&[0x08], false), Key::Backspace));
    assert!(matches!(decode(&[0x7f], false), Key::Backspace));
    assert!(matches!(decode(&[0x15], false), Key::ClearSearch));
    assert!(matches!(decode(b"z", false), Key::Other));
    assert!(matches!(decode(&[0], false), Key::Other));
    assert!(matches!(decode(&[0, 0x1f], false), Key::Other));
}

#[test]
fn a_search_reads_characters() {
    assert!(matches!(decode(b"j", true), Key::Text(s) if s == "j"));
    assert!(matches!(decode("é".as_bytes(), true), Key::Text(s) if s == "é"));
    assert!(matches!(decode("⣿".as_bytes(), true), Key::Text(s) if s == "⣿"));
    assert!(matches!(decode("😀".as_bytes(), true), Key::Text(s) if s == "😀"));
    assert!(matches!(decode(&[0xc3], true), Key::Other));
    assert!(matches!(decode(&[0xc3, b'x'], true), Key::Other));
    assert!(matches!(decode(&[0x80], true), Key::Other));
    assert!(matches!(decode(&[0xf8], true), Key::Other));
    assert!(matches!(decode(&[0x0e], true), Key::Down));
    assert!(matches!(decode(&[0x10], true), Key::Up));
    assert!(matches!(decode(b"\r", true), Key::Jump));
    assert!(matches!(decode(&[0x15], true), Key::ClearSearch));
    assert!(matches!(decode(&[0x7f], true), Key::Backspace));
    assert!(matches!(decode(&[0x03], true), Key::Quit));
    assert!(matches!(decode(&[0x1b], true), Key::AllStates));
    assert!(matches!(decode(&[0x01], true), Key::Other));
}

#[test]
fn packets_deliver_the_named_keys() {
    let key = |name: &str| decode(&key_packet(name).unwrap(), false);
    assert!(matches!(key("up"), Key::Up));
    assert!(matches!(key("down"), Key::Down));
    assert!(matches!(key("enter"), Key::Jump));
    assert!(matches!(key("escape"), Key::AllStates));
    assert!(matches!(key("backspace"), Key::Backspace));
    assert!(matches!(key("clear-search"), Key::ClearSearch));
    assert!(matches!(key("search"), Key::Search));
    assert!(matches!(key("filter"), Key::CycleState));
    assert!(matches!(key("all"), Key::AllStates));
    assert!(matches!(key("j"), Key::Down));
    assert!(matches!(key("k"), Key::Up));
    assert!(matches!(key("l"), Key::Jump));
    assert!(matches!(key("q"), Key::Quit));
    assert!(matches!(key("close"), Key::Close));
    assert!(matches!(key("help"), Key::Help));
    assert!(matches!(key("versions"), Key::Versions));
    assert_eq!(key_packet("space"), Some(vec![b' ']));
    assert!(key_packet("nothing").is_none());
}

#[test]
fn text_packets_are_written_in_hexadecimal() {
    assert_eq!(key_packet("text-6a"), Some(vec![0, b'j']));
    assert_eq!(key_packet("text-7E"), Some(vec![0, b'~']));
    assert_eq!(key_packet("text-0020"), Some(vec![0, b' ']));
    assert_eq!(key_packet("text-+41"), Some(vec![0, b'A']));
    assert!(key_packet("text-1f").is_none());
    assert!(key_packet("text-7f").is_none());
    assert!(key_packet("text-100").is_none());
    assert!(key_packet("text-").is_none());
    assert!(key_packet("text-+").is_none());
    assert!(key_packet("text-4g").is_none());
}
