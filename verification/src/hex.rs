//! Upper-case hexadecimal rendering of byte strings.
use vstd::prelude::*;

verus! {

/// The upper-case hexadecimal digits, indexed by their value.
pub const HEX_DIGITS: [char; 16] = [
    '0', '1', '2', '3', '4', '5', '6', '7', '8', '9', 'A', 'B', 'C', 'D', 'E', 'F',
];

/// The digit that stands for `nibble` (which is below 16).
pub open spec fn hex_digit(nibble: int) -> char {
    if nibble < 10 {
        (nibble + 48) as char
    } else {
        (nibble + 55) as char
    }
}

/// Two upper-case hex digits per byte, most significant nibble first.
pub open spec fn hex_upper(bytes: Seq<u8>) -> Seq<char>
    decreases bytes.len(),
{
    if bytes.len() == 0 {
        Seq::empty()
    } else {
        hex_upper(bytes.drop_last()) + seq![
            hex_digit(bytes.last() as int / 16),
            hex_digit(bytes.last() as int % 16),
        ]
    }
}

/// Calls `String::push`, which appends one character at the end of the string.
#[verifier::external_body]
pub(crate) fn push_char(s: &mut String, c: char)
    ensures
        final(s)@ == old(s)@.push(c),
{
    s.push(c);
}

fn digit_of(nibble: u8) -> (c: char)
    requires
        nibble < 16,
    ensures
        c == hex_digit(nibble as int),
{
    let c = HEX_DIGITS[nibble as usize];
    assert(HEX_DIGITS@[nibble as int] == hex_digit(nibble as int));
    c
}

/// Every byte gives exactly two digits.
pub proof fn lemma_hex_len(bytes: Seq<u8>)
    ensures
        hex_upper(bytes).len() == 2 * bytes.len(),
    decreases bytes.len(),
{
    if bytes.len() > 0 {
        lemma_hex_len(bytes.drop_last());
    }
}

/// The value of an upper-case hexadecimal digit.
pub open spec fn digit_value(c: char) -> int {
    if '0' <= c <= '9' {
        c as int - 48
    } else {
        c as int - 55
    }
}

/// Whether `c` is a decimal digit or an upper-case letter from A to F.
pub open spec fn is_upper_hex_digit(c: char) -> bool {
    ('0' <= c <= '9') || ('A' <= c <= 'F')
}

/// Byte `i` is rendered at positions `2i` (high nibble) and `2i + 1` (low
/// nibble); every character is an upper-case hex digit, and the two digits
/// read back as the byte.
pub proof fn lemma_hex_digits_encode_bytes(bytes: Seq<u8>)
    ensures
        hex_upper(bytes).len() == 2 * bytes.len(),
        forall|k: int| 0 <= k < hex_upper(bytes).len() ==> is_upper_hex_digit(#[trigger] hex_upper(bytes)[k]),
        forall|i: int|
            0 <= i < bytes.len() ==> 16 * digit_value(#[trigger] hex_upper(bytes)[2 * i]) + digit_value(
                hex_upper(bytes)[2 * i + 1],
            ) == bytes[i],
    decreases bytes.len(),
{
    lemma_hex_len(bytes);
    if bytes.len() > 0 {
        let init = bytes.drop_last();
        lemma_hex_digits_encode_bytes(init);
        let h = hex_upper(bytes);
        let hi = bytes.last() as int / 16;
        let lo = bytes.last() as int % 16;
        assert(h == hex_upper(init) + seq![hex_digit(hi), hex_digit(lo)]);
        assert forall|k: int| 0 <= k < h.len() implies is_upper_hex_digit(#[trigger] h[k]) by {
            if k < hex_upper(init).len() {
                assert(h[k] == hex_upper(init)[k]);
            }
        }
        assert forall|i: int| 0 <= i < bytes.len() implies 16 * digit_value(#[trigger] h[2 * i])
            + digit_value(h[2 * i + 1]) == bytes[i] by {
            if i < init.len() {
                assert(h[2 * i] == hex_upper(init)[2 * i]);
                assert(h[2 * i + 1] == hex_upper(init)[2 * i + 1]);
                assert(bytes[i] == init[i]);
            } else {
                assert(h[2 * i] == hex_digit(hi));
                assert(h[2 * i + 1] == hex_digit(lo));
            }
        }
    }
}

/// Renders `bytes` as upper-case hexadecimal, two digits per byte
/// (e.g. `[0xbe, 0x0f]` gives `"BE0F"`).
pub fn to_hex_string(bytes: &[u8]) -> (s: String)
    ensures
        s@ == hex_upper(bytes@),
        s@.len() == 2 * bytes@.len(),
        forall|k: int| 0 <= k < s@.len() ==> is_upper_hex_digit(#[trigger] s@[k]),
        forall|i: int|
            0 <= i < bytes@.len() ==> 16 * digit_value(#[trigger] s@[2 * i]) + digit_value(s@[2 * i + 1])
                == bytes@[i],
{
    proof {
        lemma_hex_digits_encode_bytes(bytes@);
    }
    let mut s = String::new();
    let n = bytes.len();
    for i in 0..n
        invariant
            n == bytes@.len(),
            s@ == hex_upper(bytes@.take(i as int)),
    {
        let b = bytes[i];
        assert(bytes@.take(i + 1).drop_last() =~= bytes@.take(i as int));
        push_char(&mut s, digit_of(b / 16));
        push_char(&mut s, digit_of(b % 16));
    }
    assert(bytes@.take(n as int) =~= bytes@);
    s
}

} // verus!
