use termecho::render::{plain, render};

#[test]
fn escape_sequence_renders_with_hex_escape() {
    assert_eq!(render(&[0x1B, 0x5B, 0x41]), "0x1b[A");
}

#[test]
fn empty_slice_renders_as_empty_line() {
    assert_eq!(render(&[]), "");
}

#[test]
fn letters_digits_and_punctuation_render_as_themselves() {
    assert_eq!(render(b"az"), "az");
    assert_eq!(render(b"AZ"), "AZ");
    assert_eq!(render(b"09"), "09");
    assert_eq!(render(b"!/:@[`{~"), "!/:@[`{~");
    assert_eq!(render(b"x=1;y"), "x=1;y");
}

#[test]
fn every_graphic_byte_renders_as_itself() {
    for b in 0x21u8..=0x7E {
        assert_eq!(render(&[b]), (b as char).to_string());
    }
}

#[test]
fn every_other_byte_renders_as_two_hex_digits() {
    for b in (0x00u8..=0x20).chain(0x7F..=0xFF) {
        assert_eq!(render(&[b]), format!("0x{:02x}", b));
    }
}

#[test]
fn small_values_keep_their_leading_zero() {
    assert_eq!(render(&[0x00]), "0x00");
    assert_eq!(render(&[0x07]), "0x07");
    assert_eq!(render(&[0x0A]), "0x0a");
    assert_eq!(render(&[0x0F]), "0x0f");
}

#[test]
fn hex_digits_are_lowercase() {
    assert_eq!(render(&[0xAB, 0xCD, 0xEF, 0xFF]), "0xab0xcd0xef0xff");
}

#[test]
fn space_and_delete_are_not_plain() {
    assert_eq!(render(b" "), "0x20");
    assert_eq!(render(&[0x7F]), "0x7f");
    assert_eq!(render(b"a b"), "a0x20b");
}

#[test]
fn bytes_above_ascii_render_as_hex() {
    // "é" in UTF-8
    assert_eq!(render(&[0xC3, 0xA9]), "0xc30xa9");
    assert_eq!(render(&[0x80]), "0x80");
}

#[test]
fn representations_follow_without_separator() {
    assert_eq!(render(&[0x1B, 0x1B]), "0x1b0x1b");
    assert_eq!(render(&[0x1B, b'[', b'1', b';', b'5', b'A']), "0x1b[1;5A");
}

#[test]
fn rendering_twice_gives_the_same_line() {
    let bytes: Vec<u8> = (0u8..=255).collect();
    assert_eq!(render(&bytes), render(&bytes));
}

#[test]
fn rendering_goes_byte_by_byte() {
    let front = [0x1B, b'O', b'P'];
    let back = [0x00, b'q', 0xFF];
    let mut whole = front.to_vec();
    whole.extend_from_slice(&back);
    assert_eq!(render(&whole), format!("{}{}", render(&front), render(&back)));
}

#[test]
fn plain_bytes_are_the_graphic_ones() {
    for b in 0u8..=255 {
        let expected = b.is_ascii_alphanumeric() || b.is_ascii_punctuation();
        assert_eq!(plain(b), expected);
    }
}
