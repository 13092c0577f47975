//! A 256-bit unsigned integer held as four 64-bit words.

use vstd::prelude::*;
use primitive_types::U256;
use crate::hexfmt::{all_hex_digits, hex_nat, hex_string, is_hex_string};

verus! {

/// A 256-bit unsigned integer. `w0` holds the least significant 64 bits and
/// `w3` the most significant.
#[derive(Clone, Copy, Debug, PartialEq, Eq, Structural)]
pub struct Hash256 {
    pub w0: u64,
    pub w1: u64,
    pub w2: u64,
    pub w3: u64,
}

/// The byte at place `k` of `word`, place 0 the least significant.
pub open spec fn byte_of(word: u64, k: int) -> u8
    decreases k,
{
    if k <= 0 {
        (word % 0x100) as u8
    } else {
        byte_of(word / 0x100, k - 1)
    }
}

/// Two to the power 64.
pub open spec fn word_base() -> nat {
    0x1_0000_0000_0000_0000
}

impl Hash256 {
    /// The integer that the four words stand for.
    pub open spec fn value(self) -> nat {
        self.w0 as nat + word_base() * (self.w1 as nat + word_base() * (self.w2 as nat
            + word_base() * (self.w3 as nat)))
    }

    /// The word at place `k`, place 0 the least significant.
    pub open spec fn word(self, k: int) -> u64 {
        if k == 0 {
            self.w0
        } else if k == 1 {
            self.w1
        } else if k == 2 {
            self.w2
        } else {
            self.w3
        }
    }

    /// The 32 bytes of the integer, the most significant first.
    pub open spec fn be_bytes(self) -> Seq<u8> {
        Seq::new(32, |i: int| byte_of(self.word(3 - i / 8), 7 - i % 8))
    }

    /// The integer as 64 lower-case hex digits, the most significant first.
    pub open spec fn hex_text(self) -> Seq<char> {
        hex_string(self.be_bytes())
    }

    /// The hash whose words are all zero.
    pub fn zero() -> (h: Hash256)
        ensures
            h.value() == 0,
            h == (Hash256 { w0: 0, w1: 0, w2: 0, w3: 0 }),
    {
        Hash256 { w0: 0, w1: 0, w2: 0, w3: 0 }
    }

    /// Strict comparison of the two integers, most significant word first.
    pub fn lt(&self, other: &Hash256) -> (r: bool)
        ensures
            r == (self.value() < other.value()),
    {
        proof {
            lemma_value_order(*self, *other);
            lemma_value_order(*other, *self);
        }
        if self.w3 != other.w3 {
            self.w3 < other.w3
        } else if self.w2 != other.w2 {
            self.w2 < other.w2
        } else if self.w1 != other.w1 {
            self.w1 < other.w1
        } else {
            self.w0 < other.w0
        }
    }
}

/// A value with a smaller word at the highest place where two values differ
/// is the smaller integer.
pub proof fn lemma_value_order(a: Hash256, b: Hash256)
    ensures
        a.w3 < b.w3 ==> a.value() < b.value(),
        a.w3 == b.w3 && a.w2 < b.w2 ==> a.value() < b.value(),
        a.w3 == b.w3 && a.w2 == b.w2 && a.w1 < b.w1 ==> a.value() < b.value(),
        a.w3 == b.w3 && a.w2 == b.w2 && a.w1 == b.w1 ==> (a.w0 < b.w0 <==> a.value() < b.value()),
{
    let base = word_base();
    let a1 = a.w1 as nat + base * (a.w2 as nat + base * (a.w3 as nat));
    let b1 = b.w1 as nat + base * (b.w2 as nat + base * (b.w3 as nat));
    let a2 = a.w2 as nat + base * (a.w3 as nat);
    let b2 = b.w2 as nat + base * (b.w3 as nat);
    assert(a.w3 < b.w3 ==> a2 < b2) by (nonlinear_arith)
        requires
            a2 == a.w2 as nat + base * (a.w3 as nat),
            b2 == b.w2 as nat + base * (b.w3 as nat),
            a.w2 < base,
    ;
    assert(a2 < b2 ==> a1 < b1) by (nonlinear_arith)
        requires
            a1 == a.w1 as nat + base * a2,
            b1 == b.w1 as nat + base * b2,
            a.w1 < base,
    ;
    assert(a1 < b1 ==> a.value() < b.value()) by (nonlinear_arith)
        requires
            a.value() == a.w0 as nat + base * a1,
            b.value() == b.w0 as nat + base * b1,
            a.w0 < base,
    ;
}

/// The digits of `s` once a leading `0x` is taken off.
pub open spec fn u256_digits(s: Seq<char>) -> Seq<char> {
    if s.len() >= 2 && s[0] == '0' && s[1] == 'x' {
        s.skip(2)
    } else {
        s
    }
}

/// `s` is text for a 256-bit integer: at most 64 hex digits, with or without
/// a leading `0x`.
pub open spec fn is_u256_text(s: Seq<char>) -> bool {
    all_hex_digits(u256_digits(s)) && u256_digits(s).len() <= 64
}

/// The integer that the text `s` stands for.
pub open spec fn u256_value(s: Seq<char>) -> nat {
    hex_nat(u256_digits(s))
}

/// `U256::from_str_radix` with radix 16, the result handed over word by word.
/// It succeeds exactly on at most 64 hex digits, which a `0x` may precede, and
/// the words then stand for the number that the digits stand for.
#[verifier::external_body]
pub(crate) fn parse_u256(text: &str) -> (h: Option<Hash256>)
    ensures
        h is Some <==> is_u256_text(text@),
        h is Some ==> h->0.value() == u256_value(text@),
{
    match U256::from_str_radix(text, 16) {
        Ok(v) => Some(Hash256 { w0: v.0[0], w1: v.0[1], w2: v.0[2], w3: v.0[3] }),
        Err(_) => None,
    }
}

/// The 64-bit integer whose little-endian bytes are the eight bytes of
/// `bytes` from `at` on.
pub open spec fn spec_le_u64(bytes: Seq<u8>, at: int) -> u64 {
    (bytes[at] as nat + 0x100 * (bytes[at + 1] as nat + 0x100 * (bytes[at + 2] as nat + 0x100 * (
    bytes[at + 3] as nat + 0x100 * (bytes[at + 4] as nat + 0x100 * (bytes[at + 5] as nat + 0x100
        * (bytes[at + 6] as nat + 0x100 * (bytes[at + 7] as nat)))))))) as u64
}

/// The 256-bit integer whose little-endian bytes are the 32 bytes of `bytes`.
pub open spec fn hash_from_le_bytes(bytes: Seq<u8>) -> Hash256 {
    Hash256 {
        w0: spec_le_u64(bytes, 0),
        w1: spec_le_u64(bytes, 8),
        w2: spec_le_u64(bytes, 16),
        w3: spec_le_u64(bytes, 24),
    }
}

/// The 64-bit integer whose little-endian bytes are the first eight of
/// `bytes`.
pub fn read_le_u64(bytes: &[u8]) -> (word: u64)
    requires
        bytes@.len() >= 8,
    ensures
        word == spec_le_u64(bytes@, 0),
{
    let b0: u64 = bytes[0] as u64;
    let b1: u64 = bytes[1] as u64;
    let b2: u64 = bytes[2] as u64;
    let b3: u64 = bytes[3] as u64;
    let b4: u64 = bytes[4] as u64;
    let b5: u64 = bytes[5] as u64;
    let b6: u64 = bytes[6] as u64;
    let b7: u64 = bytes[7] as u64;
    b0 + 0x100 * (b1 + 0x100 * (b2 + 0x100 * (b3 + 0x100 * (b4 + 0x100 * (b5 + 0x100 * (b6 + 0x100
        * b7))))))
}

/// The 64-bit little-endian word number `pos` of `data`.
pub fn get_u64(data: &[u8], pos: usize) -> (word: u64)
    requires
        pos * 8 + 8 <= data@.len(),
    ensures
        word == spec_le_u64(data@, pos * 8),
{
    let total: usize = data.len();
    assert(pos * 8 + 8 <= total);
    let at: usize = pos * 8;
    let b0: u64 = data[at] as u64;
    let b1: u64 = data[at + 1] as u64;
    let b2: u64 = data[at + 2] as u64;
    let b3: u64 = data[at + 3] as u64;
    let b4: u64 = data[at + 4] as u64;
    let b5: u64 = data[at + 5] as u64;
    let b6: u64 = data[at + 6] as u64;
    let b7: u64 = data[at + 7] as u64;
    b0 + 0x100 * (b1 + 0x100 * (b2 + 0x100 * (b3 + 0x100 * (b4 + 0x100 * (b5 + 0x100 * (b6 + 0x100
        * b7))))))
}

/// The 256-bit integer whose little-endian bytes are `bytes`.
pub fn hash_of_le_bytes(bytes: &[u8]) -> (h: Hash256)
    requires
        bytes@.len() == 32,
    ensures
        h == hash_from_le_bytes(bytes@),
{
    Hash256 {
        w0: get_u64(bytes, 0),
        w1: get_u64(bytes, 1),
        w2: get_u64(bytes, 2),
        w3: get_u64(bytes, 3),
    }
}

/// Hex text of at most 64 digits is text for a 256-bit integer.
pub proof fn lemma_hex_text_is_u256_text(s: Seq<char>)
    requires
        is_hex_string(s),
        s.len() <= 64,
    ensures
        is_u256_text(s),
        u256_digits(s) == s,
{
    if s.len() >= 2 {
        assert(crate::hexfmt::is_hex_digit(s[1]));
    }
}

/// A byte put below a word is the lowest byte of the sum, and the word is
/// what lies above it.
pub proof fn lemma_byte_below(low: u8, rest: u64, k: int)
    requires
        rest < 0x100_0000_0000_0000,
        0 <= k,
    ensures
        byte_of((low + 0x100 * rest) as u64, 0) == low,
        byte_of((low + 0x100 * rest) as u64, k + 1) == byte_of(rest, k),
{
    let sum = (low + 0x100 * rest) as u64;
    assert(sum / 0x100 == rest);
    reveal_with_fuel(byte_of, 2);
}

/// Each byte of a word read from little-endian bytes is the byte it was
/// read from.
pub proof fn lemma_byte_of_le_u64(bytes: Seq<u8>, at: int, k: int)
    requires
        0 <= at,
        at + 8 <= bytes.len(),
        0 <= k < 8,
    ensures
        byte_of(spec_le_u64(bytes, at), k) == bytes[at + k],
{
    let s7 = bytes[at + 7] as u64;
    let s6 = (bytes[at + 6] + 0x100 * s7) as u64;
    let s5 = (bytes[at + 5] + 0x100 * s6) as u64;
    let s4 = (bytes[at + 4] + 0x100 * s5) as u64;
    let s3 = (bytes[at + 3] + 0x100 * s4) as u64;
    let s2 = (bytes[at + 2] + 0x100 * s3) as u64;
    let s1 = (bytes[at + 1] + 0x100 * s2) as u64;
    let s0 = (bytes[at] + 0x100 * s1) as u64;
    assert(s0 == spec_le_u64(bytes, at));
    assert(byte_of(s7, 0) == bytes[at + 7]);
    if k >= 1 {
        lemma_byte_below(bytes[at], s1, k - 1);
    } else {
        lemma_byte_below(bytes[at], s1, 0);
    }
    if k >= 2 {
        lemma_byte_below(bytes[at + 1], s2, k - 2);
    } else {
        lemma_byte_below(bytes[at + 1], s2, 0);
    }
    if k >= 3 {
        lemma_byte_below(bytes[at + 2], s3, k - 3);
    } else {
        lemma_byte_below(bytes[at + 2], s3, 0);
    }
    if k >= 4 {
        lemma_byte_below(bytes[at + 3], s4, k - 4);
    } else {
        lemma_byte_below(bytes[at + 3], s4, 0);
    }
    if k >= 5 {
        lemma_byte_below(bytes[at + 4], s5, k - 5);
    } else {
        lemma_byte_below(bytes[at + 4], s5, 0);
    }
    if k >= 6 {
        lemma_byte_below(bytes[at + 5], s6, k - 6);
    } else {
        lemma_byte_below(bytes[at + 5], s6, 0);
    }
    if k >= 7 {
        lemma_byte_below(bytes[at + 6], s7, k - 7);
    } else {
        lemma_byte_below(bytes[at + 6], s7, 0);
    }
}

/// The hash read from 32 little-endian bytes is the integer whose bytes,
/// the most significant first, are those bytes in reverse order.
pub proof fn lemma_le_bytes_reversed(bytes: Seq<u8>)
    requires
        bytes.len() == 32,
    ensures
        hash_from_le_bytes(bytes).be_bytes() == bytes.reverse(),
{
    let h = hash_from_le_bytes(bytes);
    assert forall|i: int| 0 <= i < 32 implies h.be_bytes()[i] == bytes.reverse()[i] by {
        let place = 3 - i / 8;
        let k = 7 - i % 8;
        lemma_byte_of_le_u64(bytes, 8 * place, k);
        assert(h.word(place) == spec_le_u64(bytes, 8 * place));
        assert(8 * place + k == 31 - i);
    }
    assert(h.be_bytes() =~= bytes.reverse());
}

/// The byte at place 4 of a word is the lowest byte of its upper half.
pub proof fn lemma_byte_above_low_half(word: u64)
    ensures
        byte_of(word, 4) == (word / 0x1_0000_0000) % 0x100,
{
    let a = word / 0x100;
    let b = a / 0x100;
    let c = b / 0x100;
    let d = c / 0x100;
    assert(byte_of(word, 4) == byte_of(a, 3));
    assert(byte_of(a, 3) == byte_of(b, 2));
    assert(byte_of(b, 2) == byte_of(c, 1));
    assert(byte_of(c, 1) == byte_of(d, 0));
    assert(d == word / 0x1_0000_0000) by (bit_vector)
        requires
            a == word / 0x100,
            b == a / 0x100,
            c == b / 0x100,
            d == c / 0x100,
    ;
}

/// A word is the sum of its bytes, each at its place.
pub proof fn lemma_word_from_bytes(word: u64)
    ensures
        word == byte_of(word, 0) + 0x100 * (byte_of(word, 1) + 0x100 * (byte_of(word, 2) + 0x100
            * (byte_of(word, 3) + 0x100 * (byte_of(word, 4) + 0x100 * (byte_of(word, 5) + 0x100 * (
        byte_of(word, 6) + 0x100 * byte_of(word, 7))))))),
{
    reveal_with_fuel(byte_of, 9);
}

/// The lowest word of a hash is the integer that the first 8 of its bytes
/// stand for, the least significant byte first.
pub proof fn lemma_low_word_from_le_bytes(h: Hash256)
    ensures
        spec_le_u64(h.be_bytes().reverse(), 0) == h.w0,
{
    let le = h.be_bytes().reverse();
    assert forall|k: int| 0 <= k < 8 implies le[k] == byte_of(h.w0, k) by {
        assert(le[k] == h.be_bytes()[31 - k]);
    }
    lemma_word_from_bytes(h.w0);
}

} // verus!
