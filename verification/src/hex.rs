//! Canonical hexadecimal rendering of identifier bytes: each byte becomes
//! two uppercase hex digits, concatenated in byte order.

use vstd::prelude::*;

verus! {

/// std's `String::push` appends the given character at the end; vstd does
/// not specify it.
pub assume_specification[ String::push ](s: &mut String, c: char)
    ensures
        final(s)@ == old(s)@.push(c),
;

/// The uppercase hex digit for a value below sixteen.
pub open spec fn hex_digit(n: int) -> char {
    if n == 0 {
        '0'
    } else if n == 1 {
        '1'
    } else if n == 2 {
        '2'
    } else if n == 3 {
        '3'
    } else if n == 4 {
        '4'
    } else if n == 5 {
        '5'
    } else if n == 6 {
        '6'
    } else if n == 7 {
        '7'
    } else if n == 8 {
        '8'
    } else if n == 9 {
        '9'
    } else if n == 10 {
        'A'
    } else if n == 11 {
        'B'
    } else if n == 12 {
        'C'
    } else if n == 13 {
        'D'
    } else if n == 14 {
        'E'
    } else {
        'F'
    }
}

/// The two uppercase hex digits of one byte, high digit first.
pub open spec fn byte_to_hex(b: u8) -> Seq<char> {
    seq![hex_digit(b as int / 16), hex_digit(b as int % 16)]
}

/// The canonical hex string of a byte sequence: two digits per byte,
/// concatenated in order.
pub open spec fn hex_string_of(bytes: Seq<u8>) -> Seq<char>
    decreases bytes.len(),
{
    if bytes.len() == 0 {
        Seq::empty()
    } else {
        byte_to_hex(bytes.first()) + hex_string_of(bytes.drop_first())
    }
}

/// A character that the canonical hex rendering may produce.
pub open spec fn is_upper_hex_char(c: char) -> bool {
    ('0' <= c && c <= '9') || ('A' <= c && c <= 'F')
}

/// Appending one byte extends the hex string by that byte's two digits.
pub proof fn lemma_hex_string_of_push(bytes: Seq<u8>, b: u8)
    ensures
        hex_string_of(bytes.push(b)) == hex_string_of(bytes) + byte_to_hex(b),
    decreases bytes.len(),
{
    assert(bytes.push(b).first() == if bytes.len() == 0 {
        b
    } else {
        bytes.first()
    });
    if bytes.len() == 0 {
        assert(bytes.push(b).drop_first() =~= Seq::<u8>::empty());
        assert(hex_string_of(bytes.push(b)) == byte_to_hex(b) + hex_string_of(
            Seq::<u8>::empty(),
        ));
        assert(hex_string_of(bytes.push(b)) =~= hex_string_of(bytes) + byte_to_hex(b));
    } else {
        assert(bytes.push(b).drop_first() =~= bytes.drop_first().push(b));
        lemma_hex_string_of_push(bytes.drop_first(), b);
        assert(hex_string_of(bytes.push(b)) == byte_to_hex(bytes.first()) + (hex_string_of(
            bytes.drop_first(),
        ) + byte_to_hex(b)));
        assert(hex_string_of(bytes.push(b)) =~= hex_string_of(bytes) + byte_to_hex(b));
    }
}

/// The hex string of `n` bytes has `2 * n` characters, all uppercase hex
/// digits: the shape the title-identifier invariant asks for.
pub proof fn lemma_hex_string_shape(bytes: Seq<u8>)
    ensures
        hex_string_of(bytes).len() == 2 * bytes.len(),
        forall|i: int|
            0 <= i < hex_string_of(bytes).len() ==> is_upper_hex_char(#[trigger] hex_string_of(
                bytes,
            )[i]),
    decreases bytes.len(),
{
    if bytes.len() > 0 {
        lemma_hex_string_shape(bytes.drop_first());
    }
}

/// Renders each byte as two uppercase hex digits and concatenates them.
pub fn format_u8_to_hex_string(data: Vec<u8>) -> (r: String)
    ensures
        r@ == hex_string_of(data@),
{
    let mut out = String::new();
    let mut i: usize = 0;
    while i < data.len()
        invariant
            i <= data.len(),
            out@ == hex_string_of(data@.take(i as int)),
        decreases data.len() - i,
    {
        let b = data[i];
        out.push(hex_digit_char(b / 16));
        out.push(hex_digit_char(b % 16));
        proof {
            assert(data@.take(i + 1 as int) =~= data@.take(i as int).push(data@[i as int]));
            lemma_hex_string_of_push(data@.take(i as int), data@[i as int]);
            assert(out@ =~= hex_string_of(data@.take(i + 1 as int)));
        }
        i = i + 1;
    }
    proof {
        assert(data@.take(data@.len() as int) =~= data@);
    }
    out
}

/// The uppercase hex digit for a value below sixteen.
fn hex_digit_char(n: u8) -> (c: char)
    requires
        n < 16,
    ensures
        c == hex_digit(n as int),
{
    if n == 0 {
        '0'
    } else if n == 1 {
        '1'
    } else if n == 2 {
        '2'
    } else if n == 3 {
        '3'
    } else if n == 4 {
        '4'
    } else if n == 5 {
        '5'
    } else if n == 6 {
        '6'
    } else if n == 7 {
        '7'
    } else if n == 8 {
        '8'
    } else if n == 9 {
        '9'
    } else if n == 10 {
        'A'
    } else if n == 11 {
        'B'
    } else if n == 12 {
        'C'
    } else if n == 13 {
        'D'
    } else if n == 14 {
        'E'
    } else {
        'F'
    }
}

} // verus!
