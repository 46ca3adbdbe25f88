//! Legible rendering of raw input bytes.

use vstd::prelude::*;

verus! {

/// ASCII letters and digits.
pub open spec fn is_alphanumeric(b: u8) -> bool {
    (0x30 <= b <= 0x39) || (0x41 <= b <= 0x5A) || (0x61 <= b <= 0x7A)
}

/// ASCII punctuation: the graphic characters that are neither letters nor digits.
pub open spec fn is_punctuation(b: u8) -> bool {
    (0x21 <= b <= 0x2F) || (0x3A <= b <= 0x40) || (0x5B <= b <= 0x60) || (0x7B <= b <= 0x7E)
}

/// A byte that is shown as its own character.
pub open spec fn is_plain(b: u8) -> bool {
    is_alphanumeric(b) || is_punctuation(b)
}

/// The lowercase hexadecimal digit for a value below sixteen.
pub open spec fn hex_digit(n: int) -> char
    recommends
        0 <= n < 16,
{
    if n < 10 {
        (0x30 + n) as char
    } else {
        (0x61 + (n - 10)) as char
    }
}

/// How one byte is shown: a plain byte as itself, any other as `0x` and two
/// lowercase hexadecimal digits.
pub open spec fn rendered_byte(b: u8) -> Seq<char> {
    if is_plain(b) {
        seq![b as char]
    } else {
        seq!['0', 'x', hex_digit(b as int / 16), hex_digit(b as int % 16)]
    }
}

/// How a run of bytes is shown: the renderings of its bytes, one after the
/// other, with nothing between them.
pub open spec fn rendered(bytes: Seq<u8>) -> Seq<char> {
    bytes.map_values(|b: u8| rendered_byte(b)).flatten()
}

/// Tells whether a byte is shown as its own character.
pub fn plain(b: u8) -> (r: bool)
    ensures
        r == is_plain(b),
{
    0x21 <= b && b <= 0x7E
}

/// The lowercase hexadecimal digit for a value below sixteen.
fn hex(n: u8) -> (c: char)
    requires
        n < 16,
    ensures
        c == hex_digit(n as int),
{
    if n < 10 {
        (0x30 + n) as char
    } else {
        (0x61 + (n - 10)) as char
    }
}

/// `String::push` appends the given character to the end of the string and
/// leaves what was there in place.
pub assume_specification[ String::push ](s: &mut String, ch: char)
    ensures
        final(s)@ == old(s)@.push(ch),
;

/// Renders a run of bytes as one line of text: every plain byte as itself,
/// every other byte as `0x` and two lowercase hexadecimal digits.
pub fn render(bytes: &[u8]) -> (line: String)
    ensures
        line@ == rendered(bytes@),
{
    let mut line = String::new();
    let mut i: usize = 0;
    proof {
        assert(bytes@.take(0) =~= Seq::<u8>::empty());
        assert(rendered(Seq::<u8>::empty()) =~= Seq::<char>::empty());
    }
    while i < bytes.len()
        invariant
            i <= bytes.len(),
            line@ == rendered(bytes@.take(i as int)),
        decreases bytes.len() - i,
    {
        let b = bytes[i];
        if plain(b) {
            line.push(b as char);
        } else {
            line.push('0');
            line.push('x');
            line.push(hex(b / 16));
            line.push(hex(b % 16));
        }
        proof {
            assert(bytes@.take(i + 1) =~= bytes@.take(i as int).push(b));
            lemma_rendered_push(bytes@.take(i as int), b);
        }
        i += 1;
    }
    proof {
        assert(bytes@.take(bytes.len() as int) =~= bytes@);
    }
    line
}

/// Rendering goes byte by byte: one more byte adds its own rendering at the end.
pub proof fn lemma_rendered_push(bytes: Seq<u8>, b: u8)
    ensures
        rendered(bytes.push(b)) == rendered(bytes) + rendered_byte(b),
{
    let each = |b: u8| rendered_byte(b);
    assert(bytes.push(b).map_values(each) =~= bytes.map_values(each).push(rendered_byte(b)));
    bytes.map_values(each).lemma_flatten_push(rendered_byte(b));
}

/// The plain bytes are the graphic ASCII characters, `!` to `~`.
pub proof fn lemma_plain_is_graphic(b: u8)
    ensures
        is_plain(b) <==> 0x21 <= b <= 0x7E,
        !(is_alphanumeric(b) && is_punctuation(b)),
{
}

/// Every hexadecimal digit is a decimal digit or a lowercase letter from `a`
/// to `f`, and different values have different digits.
pub proof fn lemma_hex_digit_lowercase(n: int, m: int)
    requires
        0 <= n < 16,
        0 <= m < 16,
    ensures
        ('0' <= hex_digit(n) <= '9') || ('a' <= hex_digit(n) <= 'f'),
        n < 10 ==> hex_digit(n) as int == '0' as int + n,
        n >= 10 ==> hex_digit(n) as int == 'a' as int + (n - 10),
        hex_digit(n) == hex_digit(m) ==> n == m,
{
}

/// A plain byte alone renders as itself; any other byte alone renders as
/// `0x` and its value in two lowercase hexadecimal digits.
pub proof fn lemma_rendered_single(b: u8)
    ensures
        is_plain(b) ==> rendered(seq![b]) == seq![b as char],
        !is_plain(b) ==> rendered(seq![b]) == seq![
            '0',
            'x',
            hex_digit(b as int / 16),
            hex_digit(b as int % 16),
        ],
        rendered(seq![b]) == rendered_byte(b),
{
    assert(Seq::<u8>::empty().push(b) =~= seq![b]);
    assert(rendered(Seq::<u8>::empty()) =~= Seq::<char>::empty());
    lemma_rendered_push(Seq::<u8>::empty(), b);
    assert(Seq::<char>::empty() + rendered_byte(b) =~= rendered_byte(b));
}

/// Rendering two runs of bytes one after the other is rendering each and
/// joining the lines.
pub proof fn lemma_rendered_concat(front: Seq<u8>, back: Seq<u8>)
    ensures
        rendered(front + back) == rendered(front) + rendered(back),
    decreases back.len(),
{
    if back.len() == 0 {
        assert(front + back =~= front);
        assert(rendered(back) =~= Seq::<char>::empty());
        assert(rendered(front) + rendered(back) =~= rendered(front));
    } else {
        let init = back.drop_last();
        let b = back.last();
        assert(back =~= init.push(b));
        assert(front + back =~= (front + init).push(b));
        lemma_rendered_concat(front, init);
        lemma_rendered_push(front + init, b);
        lemma_rendered_push(init, b);
        assert((rendered(front) + rendered(init)) + rendered_byte(b) =~= rendered(front) + (
        rendered(init) + rendered_byte(b)));
    }
}

/// Rendering the pieces of a run of bytes and joining the lines gives the
/// line of the whole run.
pub proof fn lemma_rendered_pieces(pieces: Seq<Seq<u8>>)
    ensures
        pieces.map_values(|piece: Seq<u8>| rendered(piece)).flatten() == rendered(
            pieces.flatten(),
        ),
    decreases pieces.len(),
{
    let each = |piece: Seq<u8>| rendered(piece);
    if pieces.len() == 0 {
        assert(pieces.map_values(each) =~= Seq::<Seq<char>>::empty());
        assert(rendered(Seq::<u8>::empty()) =~= Seq::<char>::empty());
    } else {
        let init = pieces.drop_last();
        let last = pieces.last();
        assert(pieces =~= init.push(last));
        assert(pieces.map_values(each) =~= init.map_values(each).push(rendered(last)));
        init.map_values(each).lemma_flatten_push(rendered(last));
        init.lemma_flatten_push(last);
        lemma_rendered_pieces(init);
        lemma_rendered_concat(init.flatten(), last);
    }
}

/// Rendering is a function of the bytes alone: two lines made from the same
/// bytes are the same line.
pub proof fn lemma_render_deterministic(bytes: Seq<u8>, first: Seq<char>, second: Seq<char>)
    requires
        first == rendered(bytes),
        second == rendered(bytes),
    ensures
        first == second,
{
}

} // verus!
