//! Nonce drawing and the target check.

use vstd::prelude::*;
use rand::Rng;
use crate::hash256::{is_u256_text, lemma_hex_text_is_u256_text, parse_u256, u256_value};
use crate::hexfmt::{
    all_digits_f, hex_encode, hex_string, is_hex_digit, is_hex_string,
    lemma_hex_nat_at_most_all_f, lemma_hex_string_is_hex,
};

verus! {

/// `Rng::gen` on the thread's generator: a 32-bit number drawn at random.
/// Nothing is claimed of it.
#[verifier::external_body]
fn random_u32() -> (n: u32) {
    rand::thread_rng().gen::<u32>()
}

/// `Rng::gen_range` on the thread's generator: a number drawn at random from
/// `low` up to, and without, `high`.
#[verifier::external_body]
pub(crate) fn random_in_range(low: u64, high: u64) -> (n: u64)
    requires
        low < high,
    ensures
        low <= n < high,
{
    rand::thread_rng().gen_range(low..high)
}

/// The four bytes of `n`, the most significant first.
pub open spec fn be_bytes_u32(n: u32) -> Seq<u8> {
    seq![
        (n / 0x100_0000) as u8,
        ((n / 0x1_0000) % 0x100) as u8,
        ((n / 0x100) % 0x100) as u8,
        (n % 0x100) as u8,
    ]
}

/// The nonce `n` as text: eight lower-case hex digits, the most significant
/// first.
pub open spec fn nonce_text(n: u32) -> Seq<char> {
    hex_string(be_bytes_u32(n))
}

/// The nonce `n` as eight lower-case hex digits.
pub fn format_nonce(n: u32) -> (text: String)
    ensures
        text@ == nonce_text(n),
        text@.len() == 8,
        is_hex_string(text@),
{
    let mut bytes: Vec<u8> = Vec::with_capacity(4);
    bytes.push((n / 0x100_0000) as u8);
    bytes.push(((n / 0x1_0000) % 0x100) as u8);
    bytes.push(((n / 0x100) % 0x100) as u8);
    bytes.push((n % 0x100) as u8);
    proof {
        assert(bytes@ =~= be_bytes_u32(n));
        lemma_hex_string_is_hex(bytes@);
    }
    hex_encode(bytes.as_slice())
}

/// A nonce drawn at random, as eight lower-case hex digits.
pub fn generate_nonce() -> (text: String)
    ensures
        exists|n: u32| text@ == #[trigger] nonce_text(n),
        text@.len() == 8,
        is_hex_string(text@),
{
    let nonce: u32 = random_u32();
    format_nonce(nonce)
}

/// Whether the hash meets the target: both read as 256-bit integers from hex
/// text, the hash strictly below the target.
pub fn meets_target(hash: &str, target: &str) -> (below: bool)
    requires
        is_u256_text(hash@),
        is_u256_text(target@),
    ensures
        below == (u256_value(hash@) < u256_value(target@)),
{
    match check_target(hash, target) {
        Some(below) => below,
        None => false,
    }
}

/// As `meets_target`, for text of any kind: nothing where the hash or the
/// target is no text for a 256-bit integer.
pub fn check_target(hash: &str, target: &str) -> (below: Option<bool>)
    ensures
        below is Some <==> is_u256_text(hash@) && is_u256_text(target@),
        below is Some ==> below->0 == (u256_value(hash@) < u256_value(target@)),
{
    match (parse_u256(hash), parse_u256(target)) {
        (Some(hash_int), Some(target_int)) => Some(hash_int.lt(&target_int)),
        _ => None,
    }
}

/// Whether `text` is hex text for whole bytes.
pub fn is_hex_text(text: &str) -> (ok: bool)
    ensures
        ok == is_hex_string(text@),
{
    if !text.is_ascii() {
        proof {
            if is_hex_string(text@) {
                assert forall|i: int| 0 <= i < text@.len() implies '\0' <= #[trigger] text@[i]
                    <= '\u{7f}' by {
                    assert(is_hex_digit(text@[i]));
                }
            }
        }
        return false;
    }
    proof {
        vstd::string::is_ascii_spec_bytes(text);
    }
    let bytes: &[u8] = text.as_bytes();
    let n: usize = bytes.len();
    if n % 2 != 0 {
        return false;
    }
    let mut i: usize = 0;
    while i < n
        invariant
            n == bytes@.len(),
            n == text@.len(),
            i <= n,
            forall|k: int| 0 <= k < n ==> bytes@[k] == #[trigger] text@[k] as u8,
            vstd::string::is_ascii(text),
            forall|k: int| 0 <= k < i ==> is_hex_digit(#[trigger] text@[k]),
        decreases n - i,
    {
        let b: u8 = bytes[i];
        let digit: bool = (0x30 <= b && b <= 0x39) || (0x61 <= b && b <= 0x66) || (0x41 <= b && b
            <= 0x46);
        assert(text@[i as int] as u8 == b);
        assert('\0' <= text@[i as int] <= '\u{7f}');
        if !digit {
            assert(!is_hex_digit(text@[i as int]));
            return false;
        }
        i = i + 1;
    }
    true
}

/// The target that admits the most: 64 digits `f`.
pub open spec fn open_target() -> Seq<char> {
    Seq::new(64, |i: int| 'f')
}

/// Every hash of 64 hex digits is below the open target, but the one whose
/// digits all stand for 15.
pub proof fn lemma_open_target_admits(hash: Seq<char>)
    requires
        hash.len() == 64,
        is_hex_string(hash),
    ensures
        is_u256_text(hash),
        is_u256_text(open_target()),
        u256_value(hash) < u256_value(open_target()) <==> !all_digits_f(hash),
{
    lemma_hex_text_is_u256_text(hash);
    lemma_hex_text_is_u256_text(open_target());
    lemma_hex_nat_at_most_all_f(hash, open_target());
    if all_digits_f(hash) {
        lemma_hex_nat_at_most_all_f(open_target(), hash);
    }
}

} // verus!
