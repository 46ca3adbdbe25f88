use termecho::decode::{decode, is_without_position};
use termecho::event::{DecodedEvent, KeyKind, KeyStroke};

fn key(kind: KeyKind, character: Option<char>, text: &str) -> Option<DecodedEvent> {
    Some(DecodedEvent { key: Some(KeyStroke { kind, character }), text: String::from(text) })
}

fn other(text: &str) -> Option<DecodedEvent> {
    Some(DecodedEvent { key: None, text: String::from(text) })
}

#[test]
fn plain_letter_decodes_to_a_press() {
    assert_eq!(
        decode(b"q"),
        key(
            KeyKind::Press,
            Some('q'),
            "Key(KeyEvent { code: Char('q'), modifiers: KeyModifiers(0x0), kind: Press, state: KeyEventState(0x0) })"
        )
    );
}

#[test]
fn uppercase_letter_carries_shift() {
    assert_eq!(
        decode(b"Q"),
        key(
            KeyKind::Press,
            Some('Q'),
            "Key(KeyEvent { code: Char('Q'), modifiers: KeyModifiers(SHIFT), kind: Press, state: KeyEventState(0x0) })"
        )
    );
}

#[test]
fn arrow_key_has_no_character() {
    assert_eq!(
        decode(&[0x1B, 0x5B, 0x41]),
        key(
            KeyKind::Press,
            None,
            "Key(KeyEvent { code: Up, modifiers: KeyModifiers(0x0), kind: Press, state: KeyEventState(0x0) })"
        )
    );
}

#[test]
fn lone_escape_byte_is_the_escape_key() {
    assert_eq!(
        decode(&[0x1B]),
        key(
            KeyKind::Press,
            None,
            "Key(KeyEvent { code: Esc, modifiers: KeyModifiers(0x0), kind: Press, state: KeyEventState(0x0) })"
        )
    );
}

#[test]
fn escape_and_letter_is_the_letter_with_alt() {
    assert_eq!(
        decode(b"\x1Ba"),
        key(
            KeyKind::Press,
            Some('a'),
            "Key(KeyEvent { code: Char('a'), modifiers: KeyModifiers(ALT), kind: Press, state: KeyEventState(0x0) })"
        )
    );
}

#[test]
fn control_q_is_a_press_of_q() {
    assert_eq!(
        decode(&[0x11]),
        key(
            KeyKind::Press,
            Some('q'),
            "Key(KeyEvent { code: Char('q'), modifiers: KeyModifiers(CTRL), kind: Press, state: KeyEventState(0x0) })"
        )
    );
}

#[test]
fn enhanced_release_of_q_is_a_release() {
    // CSI 113 ; 1 : 3 u
    assert_eq!(
        decode(b"\x1B[113;1:3u"),
        key(
            KeyKind::Release,
            Some('q'),
            "Key(KeyEvent { code: Char('q'), modifiers: KeyModifiers(0x0), kind: Release, state: KeyEventState(0x0) })"
        )
    );
}

#[test]
fn enhanced_repeat_of_q_is_a_repeat() {
    assert_eq!(
        decode(b"\x1B[113;1:2u"),
        key(
            KeyKind::Repeat,
            Some('q'),
            "Key(KeyEvent { code: Char('q'), modifiers: KeyModifiers(0x0), kind: Repeat, state: KeyEventState(0x0) })"
        )
    );
}

#[test]
fn enhanced_press_of_q_is_a_press() {
    assert_eq!(
        decode(b"\x1B[113u"),
        key(
            KeyKind::Press,
            Some('q'),
            "Key(KeyEvent { code: Char('q'), modifiers: KeyModifiers(0x0), kind: Press, state: KeyEventState(0x0) })"
        )
    );
}

#[test]
fn focus_reports_are_no_key_events() {
    assert_eq!(decode(b"\x1B[I"), other("FocusGained"));
    assert_eq!(decode(b"\x1B[O"), other("FocusLost"));
}

#[test]
fn bracketed_paste_holds_the_pasted_text() {
    assert_eq!(decode(b"\x1B[200~hi\x1B[201~"), other("Paste(\"hi\")"));
}

#[test]
fn sgr_mouse_report_counts_from_zero() {
    assert_eq!(
        decode(b"\x1B[<0;10;5M"),
        other("Mouse(MouseEvent { kind: Down(Left), column: 9, row: 4, modifiers: KeyModifiers(0x0) })")
    );
    assert_eq!(
        decode(b"\x1B[<0;10;5m"),
        other("Mouse(MouseEvent { kind: Up(Left), column: 9, row: 4, modifiers: KeyModifiers(0x0) })")
    );
}

#[test]
fn normal_mouse_report_counts_from_zero() {
    // button 0, column 1, row 1
    assert_eq!(
        decode(&[0x1B, b'[', b'M', 32, 33, 33]),
        other("Mouse(MouseEvent { kind: Down(Left), column: 0, row: 0, modifiers: KeyModifiers(0x0) })")
    );
}

#[test]
fn rxvt_mouse_report_counts_from_zero() {
    assert_eq!(
        decode(b"\x1B[32;30;40;M"),
        other("Mouse(MouseEvent { kind: Down(Left), column: 29, row: 39, modifiers: KeyModifiers(0x0) })")
    );
}

#[test]
fn unknown_sequence_decodes_to_nothing() {
    assert_eq!(decode(b"\x1B[x"), None);
    assert_eq!(decode(&[0x80]), None);
    assert_eq!(decode(&[0xFF, 0xFF]), None);
}

#[test]
fn incomplete_sequence_decodes_to_nothing() {
    assert_eq!(decode(b"\x1B["), None);
    assert_eq!(decode(b"\x1BO"), None);
    assert_eq!(decode(b"\x1B[200~unfinished"), None);
    assert_eq!(decode(b"\x1B[M !"), None);
}

#[test]
fn empty_sequence_decodes_to_nothing() {
    assert_eq!(decode(b""), None);
}

#[test]
fn mouse_report_with_column_or_row_zero_decodes_to_nothing() {
    assert_eq!(decode(b"\x1B[<0;0;0M"), None);
    assert_eq!(decode(b"\x1B[<0;0;5M"), None);
    assert_eq!(decode(b"\x1B[<0;10;0M"), None);
    assert_eq!(decode(b"\x1B[<0;00;+0m"), None);
    assert_eq!(decode(b"\x1B[<0;10M"), None);
    assert_eq!(decode(b"\x1B[32;0;40;M"), None);
    assert_eq!(decode(b"\x1B[32;30;0;M"), None);
    assert_eq!(decode(b"\x1B[32;30M"), None);
    assert_eq!(decode(&[0x1B, b'[', b'M', 32, 32, 33]), None);
    assert_eq!(decode(&[0x1B, b'[', b'M', 32, 33, 32]), None);
    assert_eq!(decode(&[0x1B, b'[', b'M', 32, 0, 0]), None);
}

#[test]
fn reports_without_position_are_told_apart() {
    assert!(is_without_position(b"\x1B[<0;0;0M"));
    assert!(is_without_position(b"\x1B[<0;0;5m"));
    assert!(is_without_position(b"\x1B[<0;5;0M"));
    assert!(is_without_position(b"\x1B[<0;5M"));
    assert!(is_without_position(b"\x1B[<M"));
    assert!(is_without_position(b"\x1B[32;0;40;M"));
    assert!(is_without_position(b"\x1B[1M"));
    assert!(is_without_position(&[0x1B, b'[', b'M', 32, 32, 33]));
    assert!(is_without_position(&[0x1B, b'[', b'M', 32, 33, 7]));

    assert!(!is_without_position(b"\x1B[<0;10;5M"));
    assert!(!is_without_position(b"\x1B[<35;1;1m"));
    assert!(!is_without_position(b"\x1B[<0;100;200M"));
    assert!(!is_without_position(b"\x1B[32;30;40;M"));
    assert!(!is_without_position(&[0x1B, b'[', b'M', 32, 33, 33]));
    assert!(!is_without_position(&[0x1B, b'[', b'M', 32, 255, 255]));
}

#[test]
fn other_sequences_are_never_held_back() {
    assert!(!is_without_position(b""));
    assert!(!is_without_position(b"q"));
    assert!(!is_without_position(b"M"));
    assert!(!is_without_position(&[0x1B]));
    assert!(!is_without_position(b"\x1B["));
    assert!(!is_without_position(b"\x1B[A"));
    assert!(!is_without_position(b"\x1B[M"));
    assert!(!is_without_position(b"\x1B[M !"));
    assert!(!is_without_position(b"\x1B[<0;0;0"));
    assert!(!is_without_position(b"\x1B[<"));
    assert!(!is_without_position(b"\x1B[1;5A"));
    assert!(!is_without_position(b"\x1B[113;1:3u"));
    assert!(!is_without_position(b"\x1B[200~M\x1B[201~"));
    assert!(!is_without_position(b"\x1BOM"));
    assert!(!is_without_position(b"a[<0;0;0M"));
}

#[test]
fn decoding_twice_gives_the_same_event() {
    let sequences: [&[u8]; 6] =
        [b"q", b"\x1B[A", b"\x1B[<0;10;5M", b"\x1B[I", b"\x1B[x", b"\x1B[200~text\x1B[201~"];
    for sequence in sequences {
        assert_eq!(decode(sequence), decode(sequence));
    }
}

#[test]
fn every_short_mouse_report_is_decoded_or_refused() {
    // Each parameter list of up to four bytes, in each of the encodings:
    // none may bring the decoder down.
    let alphabet = [b';', b'0', b'1', b'9', b'+', b'M', b'm', 0x20, 0x21, 0xFF];
    let prefixes: [&[u8]; 3] = [b"\x1B[<", b"\x1B[M", b"\x1B[3"];
    let mut decoded = 0;
    for prefix in prefixes {
        for a in alphabet {
            for b in alphabet {
                for c in alphabet {
                    for d in alphabet {
                        for last in [b'M', b'm'] {
                            let mut sequence = prefix.to_vec();
                            sequence.extend_from_slice(&[a, b, c, d, last]);
                            if decode(&sequence).is_some() {
                                decoded += 1;
                            }
                        }
                    }
                }
            }
        }
    }
    assert!(decoded > 0);
}
