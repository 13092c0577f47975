//! Hexadecimal text: what it stands for, and the encoder and decoder.

use vstd::prelude::*;

verus! {

/// `c` is one of `0-9`, `a-f`, `A-F`.
pub open spec fn is_hex_digit(c: char) -> bool {
    ||| '0' <= c <= '9'
    ||| 'a' <= c <= 'f'
    ||| 'A' <= c <= 'F'
}

/// The number that the hex digit `c` stands for.
pub open spec fn hex_digit_value(c: char) -> nat {
    if '0' <= c <= '9' {
        (c as int - 0x30) as nat
    } else if 'a' <= c <= 'f' {
        (c as int - 0x61 + 10) as nat
    } else if 'A' <= c <= 'F' {
        (c as int - 0x41 + 10) as nat
    } else {
        0
    }
}

/// The lower-case hex digit for `d`, `d < 16`.
pub open spec fn lower_hex_digit(d: nat) -> char {
    if d < 10 {
        (0x30 + d) as char
    } else {
        (0x61 + d - 10) as char
    }
}

/// Every character of `s` is a hex digit.
pub open spec fn all_hex_digits(s: Seq<char>) -> bool {
    forall|i: int| 0 <= i < s.len() ==> is_hex_digit(#[trigger] s[i])
}

/// `s` is hex text for whole bytes: hex digits, an even number of them.
pub open spec fn is_hex_string(s: Seq<char>) -> bool {
    s.len() % 2 == 0 && all_hex_digits(s)
}

/// The bytes that the hex text `s` stands for, two digits to a byte, the
/// high digit first.
pub open spec fn hex_bytes(s: Seq<char>) -> Seq<u8> {
    Seq::new(
        s.len() / 2,
        |i: int| (16 * hex_digit_value(s[2 * i]) + hex_digit_value(s[2 * i + 1])) as u8,
    )
}

/// The lower-case hex text of `bytes`, two digits to a byte, the high digit
/// first.
pub open spec fn hex_string(bytes: Seq<u8>) -> Seq<char> {
    Seq::new(
        2 * bytes.len(),
        |i: int|
            if i % 2 == 0 {
                lower_hex_digit((bytes[i / 2] / 16) as nat)
            } else {
                lower_hex_digit((bytes[i / 2] % 16) as nat)
            },
    )
}

/// The number that the hex digits `s` stand for, the first digit the most
/// significant.
pub open spec fn hex_nat(s: Seq<char>) -> nat
    decreases s.len(),
{
    if s.len() == 0 {
        0
    } else {
        16 * hex_nat(s.drop_last()) + hex_digit_value(s.last())
    }
}

/// `hex::encode`: the lower-case hex text of `bytes`.
#[verifier::external_body]
pub(crate) fn hex_encode(bytes: &[u8]) -> (text: String)
    ensures
        text@ == hex_string(bytes@),
{
    hex::encode(bytes)
}

/// `hex::decode`: the bytes that `text` stands for. It succeeds exactly on
/// an even number of hex digits, of either case.
#[verifier::external_body]
pub(crate) fn hex_decode(text: &str) -> (bytes: Option<Vec<u8>>)
    ensures
        bytes is Some <==> is_hex_string(text@),
        bytes is Some ==> bytes->0@ == hex_bytes(text@),
{
    hex::decode(text).ok()
}

/// Encoded bytes are hex text.
pub proof fn lemma_hex_string_is_hex(bytes: Seq<u8>)
    ensures
        is_hex_string(hex_string(bytes)),
        hex_string(bytes).len() == 2 * bytes.len(),
{
    let s = hex_string(bytes);
    assert forall|i: int| 0 <= i < s.len() implies is_hex_digit(#[trigger] s[i]) by {
        let b = bytes[i / 2];
        lemma_lower_hex_digit((b / 16) as nat);
        lemma_lower_hex_digit((b % 16) as nat);
    }
}

/// A lower-case hex digit is a hex digit and stands for its number.
pub proof fn lemma_lower_hex_digit(d: nat)
    requires
        d < 16,
    ensures
        is_hex_digit(lower_hex_digit(d)),
        hex_digit_value(lower_hex_digit(d)) == d,
{
}

/// Hex text followed by hex text is hex text.
pub proof fn lemma_hex_concat(a: Seq<char>, b: Seq<char>)
    requires
        is_hex_string(a),
        is_hex_string(b),
    ensures
        is_hex_string(a + b),
{
}

/// The number that hex digits stand for leaves, on division by 8, what the
/// last digit leaves.
pub proof fn lemma_hex_nat_mod_8(s: Seq<char>)
    requires
        s.len() >= 1,
    ensures
        hex_nat(s) % 8 == hex_digit_value(s.last()) % 8,
{
}

/// Every digit of `s` stands for 15.
pub open spec fn all_digits_f(s: Seq<char>) -> bool {
    forall|i: int| 0 <= i < s.len() ==> hex_digit_value(#[trigger] s[i]) == 15
}

/// Among texts of one length, the one whose digits all stand for 15 stands
/// for the largest number, and every other for a smaller one.
pub proof fn lemma_hex_nat_at_most_all_f(s: Seq<char>, top: Seq<char>)
    requires
        s.len() == top.len(),
        all_digits_f(top),
    ensures
        hex_nat(s) <= hex_nat(top),
        !all_digits_f(s) ==> hex_nat(s) < hex_nat(top),
    decreases s.len(),
{
    if s.len() > 0 {
        let shorter = s.drop_last();
        let top_shorter = top.drop_last();
        assert(all_digits_f(top_shorter)) by {
            assert forall|i: int| 0 <= i < top_shorter.len() implies hex_digit_value(
                #[trigger] top_shorter[i],
            ) == 15 by {
                assert(top_shorter[i] == top[i]);
            }
        }
        lemma_hex_nat_at_most_all_f(shorter, top_shorter);
        assert(hex_digit_value(top.last()) == 15) by {
            assert(top.last() == top[top.len() - 1]);
        }
        if all_digits_f(shorter) && hex_digit_value(s.last()) == 15 {
            assert forall|i: int| 0 <= i < s.len() implies hex_digit_value(#[trigger] s[i])
                == 15 by {
                if i < s.len() - 1 {
                    assert(shorter[i] == s[i]);
                }
            }
        }
    }
}

} // verus!
