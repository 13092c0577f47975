//! The two-stage hash pipeline around the cycle search.

use vstd::prelude::*;
use sha2::{Digest, Sha256};
use crate::hash256::{hash_from_le_bytes, hash_of_le_bytes, Hash256};
use crate::hexfmt::{
    hex_bytes, hex_decode, hex_encode, hex_string, is_hex_string, lemma_hex_concat,
    lemma_hex_string_is_hex,
};
use crate::cycle::{has_no_cycle, is_first_cycle, lemma_first_cycle_unique, NO_VERTEX};
use crate::graph::{spec_graph, spec_grid_size};
use crate::vdf_solution::{empty_path, HCGraphUtil, GRAPH_SIZE};

verus! {

/// The SHA-256 digest of `data`.
pub uninterp spec fn sha256(data: Seq<u8>) -> Seq<u8>;

/// `Sha256::digest`: the SHA-256 digest of `data`, which is 32 bytes long.
#[verifier::external_body]
pub(crate) fn sha256_digest(data: &[u8]) -> (digest: Vec<u8>)
    ensures
        digest@ == sha256(data@),
        digest@.len() == 32,
{
    Sha256::digest(data).to_vec()
}

/// A path of 2008 empty slots.
pub open spec fn sentinel_cycle() -> Seq<u16> {
    Seq::new(GRAPH_SIZE as nat, |i: int| NO_VERTEX)
}

/// `p` filled up with empty slots to 2008 entries.
pub open spec fn padded_path(p: Seq<u16>) -> Seq<u16> {
    if p.len() < GRAPH_SIZE {
        p + Seq::new((GRAPH_SIZE - p.len()) as nat, |i: int| NO_VERTEX)
    } else {
        p
    }
}

/// The entries of `p` as bytes, the high byte of each entry first.
pub open spec fn path_bytes_be(p: Seq<u16>) -> Seq<u8> {
    Seq::new(
        2 * p.len(),
        |i: int|
            if i % 2 == 0 {
                (p[i / 2] / 0x100) as u8
            } else {
                (p[i / 2] % 0x100) as u8
            },
    )
}

/// The entries of `p` as bytes, the low byte of each entry first.
pub open spec fn path_bytes_le(p: Seq<u16>) -> Seq<u8> {
    Seq::new(
        2 * p.len(),
        |i: int|
            if i % 2 == 0 {
                (p[i / 2] % 0x100) as u8
            } else {
                (p[i / 2] / 0x100) as u8
            },
    )
}

/// Hex text of the empty path, the high byte of each entry first.
pub open spec fn sentinel_hex() -> Seq<char> {
    hex_string(path_bytes_be(sentinel_cycle()))
}

/// Hex text of `p` padded to 2008 entries, the low byte of each entry first.
pub open spec fn serialised_path(p: Seq<u16>) -> Seq<char> {
    hex_string(path_bytes_le(padded_path(p)))
}

/// The graph seed of the hex text `data`: the digest of `data` followed by
/// the empty path, read as a little-endian integer.
pub open spec fn graph_seed(data: Seq<char>) -> Hash256 {
    hash_from_le_bytes(sha256(hex_bytes(data + sentinel_hex())))
}

/// The final hash of the hex text `data` followed by the hex text of a path:
/// the digest of both, byte-reversed, as hex text.
pub open spec fn final_hash(data: Seq<char>, path_hex: Seq<char>) -> Seq<char> {
    hex_string(sha256(hex_bytes(data + path_hex)).reverse())
}

/// The bytes of `path`, the high byte of each entry first where `high_first`
/// is set and the low byte first where it is not.
pub fn path_bytes(path: &Vec<u16>, high_first: bool) -> (bytes: Vec<u8>)
    requires
        path@.len() <= 0x7FFF_FFFF,
    ensures
        bytes@ == (if high_first {
            path_bytes_be(path@)
        } else {
            path_bytes_le(path@)
        }),
{
    let mut bytes: Vec<u8> = Vec::with_capacity(2 * path.len());
    let mut i: usize = 0;
    while i < path.len()
        invariant
            i <= path@.len() <= 0x7FFF_FFFF,
            bytes@.len() == 2 * i,
            forall|k: int|
                0 <= k < 2 * i ==> bytes@[k] == (if high_first {
                    path_bytes_be(path@)[k]
                } else {
                    path_bytes_le(path@)[k]
                }),
        decreases path@.len() - i,
    {
        let v: u16 = path[i];
        let high: u8 = (v / 0x100) as u8;
        let low: u8 = (v % 0x100) as u8;
        if high_first {
            bytes.push(high);
            bytes.push(low);
        } else {
            bytes.push(low);
            bytes.push(high);
        }
        i = i + 1;
    }
    assert(bytes@ =~= (if high_first {
        path_bytes_be(path@)
    } else {
        path_bytes_le(path@)
    }));
    bytes
}

/// The bytes of `bytes` in reverse order.
pub fn reversed_bytes(bytes: &Vec<u8>) -> (rev: Vec<u8>)
    ensures
        rev@ == bytes@.reverse(),
{
    let n: usize = bytes.len();
    let mut rev: Vec<u8> = Vec::with_capacity(n);
    let mut i: usize = 0;
    while i < n
        invariant
            n == bytes@.len(),
            i <= n,
            rev@.len() == i,
            forall|k: int| 0 <= k < i ==> rev@[k] == bytes@[n - 1 - k],
        decreases n - i,
    {
        rev.push(bytes[n - 1 - i]);
        i = i + 1;
    }
    assert(rev@ =~= bytes@.reverse());
    rev
}

/// The digest of the bytes that `data` followed by `tail` stands for.
pub fn digest_of_hex(data: &str, tail: &str) -> (digest: Vec<u8>)
    requires
        is_hex_string(data@),
        is_hex_string(tail@),
    ensures
        digest@ == sha256(hex_bytes(data@ + tail@)),
        digest@.len() == 32,
{
    let mut text: String = String::from_str(data);
    text.append(tail);
    proof {
        lemma_hex_concat(data@, tail@);
    }
    match hex_decode(text.as_str()) {
        Some(bytes) => sha256_digest(bytes.as_slice()),
        None => Vec::new(),
    }
}

/// Stage one: the graph seed of the hex text `data`.
pub fn stage_one_hash(data: &str) -> (seed: Hash256)
    requires
        is_hex_string(data@),
    ensures
        seed == graph_seed(data@),
{
    let sentinel: Vec<u16> = empty_path(GRAPH_SIZE as usize);
    let sentinel_bytes: Vec<u8> = path_bytes(&sentinel, true);
    let sentinel_text: String = hex_encode(sentinel_bytes.as_slice());
    proof {
        assert(sentinel@ =~= sentinel_cycle());
        lemma_hex_string_is_hex(sentinel_bytes@);
    }
    let digest: Vec<u8> = digest_of_hex(data, sentinel_text.as_str());
    hash_of_le_bytes(digest.as_slice())
}

/// Hex text of `path` padded to 2008 entries, the low byte of each entry
/// first.
pub fn serialise_path(path: Vec<u16>) -> (text: String)
    requires
        path@.len() <= 0x7FFF_FFFF,
    ensures
        text@ == serialised_path(path@),
        is_hex_string(text@),
{
    let ghost given = path@;
    let mut path = path;
    while path.len() < GRAPH_SIZE as usize
        invariant
            given.len() <= 0x7FFF_FFFF,
            given.len() <= path@.len(),
            path@.len() <= GRAPH_SIZE || path@.len() == given.len(),
            forall|i: int| 0 <= i < given.len() ==> path@[i] == given[i],
            forall|i: int| given.len() <= i < path@.len() ==> path@[i] == NO_VERTEX,
        decreases GRAPH_SIZE - path@.len(),
    {
        path.push(NO_VERTEX);
    }
    assert(path@ =~= padded_path(given));
    let bytes: Vec<u8> = path_bytes(&path, false);
    proof {
        lemma_hex_string_is_hex(bytes@);
    }
    hex_encode(bytes.as_slice())
}

/// The graph that an attempt on the hex text `data` has to solve.
pub open spec fn attempt_graph(data: Seq<char>) -> Seq<Seq<bool>> {
    spec_graph(graph_seed(data), spec_grid_size(graph_seed(data)))
}

/// `hash` and `path_hex` are what an attempt on `data` that found its cycle
/// hands back: the hex text of the first Hamiltonian cycle of the attempt's
/// graph, and the final hash of `data` followed by that text.
pub open spec fn attempt_result(data: Seq<char>, hash: Seq<char>, path_hex: Seq<char>) -> bool {
    exists|p: Seq<u16>|
        {
            &&& #[trigger] is_first_cycle(attempt_graph(data), p)
            &&& path_hex == serialised_path(p)
            &&& hash == final_hash(data, path_hex)
        }
}

/// Stage two on a given path: the hex text of the path, and the final hash of
/// `data` followed by that text, which is 64 hex digits long.
pub fn seal_path(data: &str, path: Vec<u16>) -> (sealed: (String, String))
    requires
        is_hex_string(data@),
        path@.len() <= 0x7FFF_FFFF,
    ensures
        sealed.1@ == serialised_path(path@),
        sealed.0@ == final_hash(data@, sealed.1@),
        sealed.0@.len() == 64,
        is_hex_string(sealed.0@),
{
    let path_text: String = serialise_path(path);
    let digest: Vec<u8> = digest_of_hex(data, path_text.as_str());
    let reversed: Vec<u8> = reversed_bytes(&digest);
    proof {
        lemma_hex_string_is_hex(reversed@);
    }
    let hash_text: String = hex_encode(reversed.as_slice());
    (hash_text, path_text)
}

/// One hash attempt on the hex text `data` (job data followed by the nonce):
/// derives the graph seed, searches the seed's graph for a Hamiltonian cycle,
/// and seals the cycle into the final hash. Returns the final hash, 64 hex
/// digits long, and the hex text of the cycle. Returns nothing only where the
/// search ran out of time or the graph has no Hamiltonian cycle.
pub fn compute_hash_no_vdf(data: &str, hc_util: &mut HCGraphUtil) -> (result: Option<
    (String, String),
>)
    requires
        is_hex_string(data@),
    ensures
        final(hc_util).spec_bailout() == old(hc_util).spec_bailout(),
        match result {
            Some((hash, path_hex)) => {
                &&& attempt_result(data@, hash@, path_hex@)
                &&& hash@.len() == 64
                &&& is_hex_string(hash@)
                &&& !final(hc_util).spec_expired()
            },
            None => final(hc_util).spec_expired() || has_no_cycle(attempt_graph(data@)),
        },
{
    let graph_hash: Hash256 = stage_one_hash(data);
    let path: Vec<u16> = hc_util.find_hamiltonian_cycle_v2(graph_hash);
    if path.len() == 0 {
        return None;
    }
    let ghost p = path@;
    let sealed = seal_path(data, path);
    assert(is_first_cycle(attempt_graph(data@), p));
    Some(sealed)
}

/// An attempt that finds its cycle has one possible result: two results for
/// the same text are the same hash and the same path text.
pub proof fn lemma_attempt_result_unique(
    data: Seq<char>,
    hash_a: Seq<char>,
    path_a: Seq<char>,
    hash_b: Seq<char>,
    path_b: Seq<char>,
)
    requires
        attempt_result(data, hash_a, path_a),
        attempt_result(data, hash_b, path_b),
    ensures
        hash_a == hash_b,
        path_a == path_b,
{
    let p = choose|p: Seq<u16>|
        {
            &&& #[trigger] is_first_cycle(attempt_graph(data), p)
            &&& path_a == serialised_path(p)
            &&& hash_a == final_hash(data, path_a)
        };
    let q = choose|q: Seq<u16>|
        {
            &&& #[trigger] is_first_cycle(attempt_graph(data), q)
            &&& path_b == serialised_path(q)
            &&& hash_b == final_hash(data, path_b)
        };
    lemma_first_cycle_unique(attempt_graph(data), p, q);
}

} // verus!
