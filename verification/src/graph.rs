//! The graph that a hash stands for: its order, its edge stream, and the
//! adjacency matrix filled from it.

use vstd::prelude::*;
use crate::hash256::{byte_of, lemma_byte_above_low_half, Hash256};
use crate::hexfmt::{hex_nat, lemma_hex_nat_mod_8, lemma_lower_hex_digit};
use crate::prng::{mt64_next, mt64_seeded, mt64_upcoming, mt64_word};

verus! {

/// The order of the graph derived from `h`: 2000 plus the top 32 bits of the
/// hash taken modulo 8.
pub open spec fn spec_grid_size(h: Hash256) -> nat {
    (2000 + (h.w3 as nat / 0x1_0000_0000) % 8) as nat
}

/// The seed handed to the generator: the lowest 64 bits of the hash.
pub open spec fn spec_seed(h: Hash256) -> u64 {
    h.w0
}

/// Number of vertex pairs `(a, b)` with `a < i` and `a < b < n`.
pub open spec fn row_offset(n: nat, i: nat) -> nat
    decreases i,
{
    if i == 0 {
        0
    } else {
        (row_offset(n, (i - 1) as nat) + (n - i)) as nat
    }
}

/// Position of the pair `(i, j)`, `i < j < n`, when the pairs are listed row
/// by row.
pub open spec fn edge_index(n: nat, i: nat, j: nat) -> nat {
    (row_offset(n, i) + (j - i - 1)) as nat
}

/// Bit `k` of the canonical edge stream: the lowest bit of draw `k`.
pub open spec fn canonical_bit(seed: u64, k: nat) -> bool {
    mt64_word(seed, k) & 1 == 1
}

/// Bit `k` of the chunked edge stream: the low 32 bits of draw `k / 32`, read
/// from the most significant bit down.
pub open spec fn chunked_bit(seed: u64, k: nat) -> bool {
    ((mt64_word(seed, k / 32) & 0xFFFF_FFFF) >> ((31 - k % 32) as u64)) & 1 == 1
}

/// Whether vertices `i` and `j` are joined in the graph of order `n` filled
/// from `bits`.
pub open spec fn edge_from_bits(bits: Seq<bool>, n: nat, i: int, j: int) -> bool {
    if 0 <= i < j {
        bits[edge_index(n, i as nat, j as nat) as int]
    } else if 0 <= j < i {
        bits[edge_index(n, j as nat, i as nat) as int]
    } else {
        false
    }
}

/// The adjacency matrix of order `n` filled from `bits`.
pub open spec fn graph_from_bits(bits: Seq<bool>, n: nat) -> Seq<Seq<bool>> {
    Seq::new(n, |i: int| Seq::new(n, |j: int| edge_from_bits(bits, n, i, j)))
}

/// The first `count` bits of the canonical edge stream.
pub open spec fn canonical_bits(seed: u64, count: nat) -> Seq<bool> {
    Seq::new(count, |k: int| canonical_bit(seed, k as nat))
}

/// The first `count` bits of the chunked edge stream.
pub open spec fn chunked_bits(seed: u64, count: nat) -> Seq<bool> {
    Seq::new(count, |k: int| chunked_bit(seed, k as nat))
}

/// The graph of order `n` that the canonical rule derives from `h`.
pub open spec fn spec_graph(h: Hash256, n: nat) -> Seq<Seq<bool>> {
    graph_from_bits(canonical_bits(spec_seed(h), row_offset(n, n)), n)
}

/// The graph of order `n` that the chunked rule derives from `h`.
pub open spec fn spec_graph_chunked(h: Hash256, n: nat) -> Seq<Seq<bool>> {
    graph_from_bits(chunked_bits(spec_seed(h), row_offset(n, n)), n)
}

/// The matrix that a vector of rows stands for.
pub open spec fn graph_view(g: &Vec<Vec<bool>>) -> Seq<Seq<bool>> {
    Seq::new(g@.len(), |i: int| g@[i]@)
}

/// Every row is as long as the matrix is high.
pub open spec fn is_square(g: Seq<Seq<bool>>) -> bool {
    forall|i: int| 0 <= i < g.len() ==> (#[trigger] g[i]).len() == g.len()
}

/// `row_offset` is monotone in the row, and the last row ends at the total.
pub proof fn lemma_row_offset_bounds(n: nat, i: nat)
    requires
        i <= n,
    ensures
        row_offset(n, i) <= row_offset(n, n),
    decreases n - i,
{
    if i < n {
        lemma_row_offset_bounds(n, i + 1);
    }
}

/// Closed form of `row_offset`.
pub proof fn lemma_row_offset_closed(n: nat, i: nat)
    requires
        i <= n,
    ensures
        2 * row_offset(n, i) == i * (2 * n - i - 1),
    decreases i,
{
    if i > 0 {
        lemma_row_offset_closed(n, (i - 1) as nat);
        assert(i * (2 * n - i - 1) == (i - 1) * (2 * n - (i - 1) - 1) + 2 * (n - i))
            by (nonlinear_arith);
    } else {
        assert(i * (2 * n - i - 1) == 0) by (nonlinear_arith)
            requires
                i == 0,
        ;
    }
}

/// Every pair of a graph of order `n` has its place in a stream of
/// `row_offset(n, n)` bits.
pub proof fn lemma_edge_index_in_range(n: nat, i: nat, j: nat)
    requires
        i < j < n,
    ensures
        edge_index(n, i, j) < row_offset(n, i + 1),
        row_offset(n, i + 1) <= row_offset(n, n),
        row_offset(n, i) <= edge_index(n, i, j),
{
    lemma_row_offset_bounds(n, i + 1);
}

/// Number of vertex pairs of a graph of order `n`.
pub fn edge_count(n: usize) -> (count: usize)
    requires
        n <= 0xFFFF,
    ensures
        count == row_offset(n as nat, n as nat),
        2 * count == n * (n - 1),
{
    if n == 0 {
        return 0;
    }
    proof {
        lemma_row_offset_closed(n as nat, n as nat);
        assert(n * (n - 1) <= 0xFFFF * 0xFFFE) by (nonlinear_arith)
            requires
                1 <= n <= 0xFFFF,
        ;
        assert(n * (2 * n - n - 1) == n * (n - 1)) by (nonlinear_arith);
    }
    (n * (n - 1)) / 2
}

/// The first `count` bits of the canonical edge stream of `seed`.
pub fn canonical_bit_stream(seed: u64, count: usize) -> (bits: Vec<bool>)
    ensures
        bits@ == canonical_bits(seed, count as nat),
{
    let mut prng = mt64_seeded(seed);
    let mut bits: Vec<bool> = Vec::with_capacity(count);
    while bits.len() < count
        invariant
            bits@.len() <= count,
            forall|k: int| 0 <= k < bits@.len() ==> bits@[k] == canonical_bit(seed, k as nat),
            forall|a: nat| #[trigger] mt64_upcoming(prng, a) == mt64_word(seed, bits@.len() + a),
        decreases count - bits@.len(),
    {
        let ghost before = prng;
        let word: u64 = mt64_next(&mut prng);
        assert forall|a: nat| #[trigger] mt64_upcoming(prng, a) == mt64_word(
            seed,
            bits@.len() + 1 + a,
        ) by {
            assert(mt64_upcoming(prng, a) == mt64_upcoming(before, a + 1));
        }
        bits.push(word & 1 == 1);
    }
    assert(bits@ =~= canonical_bits(seed, count as nat));
    bits
}

/// The first `count` bits of the chunked edge stream of `seed`.
pub fn chunked_bit_stream(seed: u64, count: usize) -> (bits: Vec<bool>)
    ensures
        bits@ == chunked_bits(seed, count as nat),
{
    let mut prng = mt64_seeded(seed);
    let mut bits: Vec<bool> = Vec::with_capacity(count);
    let ghost mut draws: nat = 0;
    while bits.len() < count
        invariant
            bits@.len() <= count,
            bits@.len() < count ==> bits@.len() == 32 * draws,
            forall|k: int| 0 <= k < bits@.len() ==> bits@[k] == chunked_bit(seed, k as nat),
            forall|a: nat| #[trigger] mt64_upcoming(prng, a) == mt64_word(seed, draws + a),
        decreases count - bits@.len(),
    {
        let ghost before = prng;
        let word: u64 = mt64_next(&mut prng);
        assert forall|a: nat| #[trigger] mt64_upcoming(prng, a) == mt64_word(
            seed,
            draws + 1 + a,
        ) by {
            assert(mt64_upcoming(prng, a) == mt64_upcoming(before, a + 1));
        }
        assert(word == mt64_word(seed, draws));
        let low: u64 = word & 0xFFFF_FFFF;
        let mut j: u64 = 32;
        while j > 0 && bits.len() < count
            invariant
                j <= 32,
                low == mt64_word(seed, draws) & 0xFFFF_FFFF,
                bits@.len() <= count,
                bits@.len() == 32 * draws + (32 - j),
                forall|k: int| 0 <= k < bits@.len() ==> bits@[k] == chunked_bit(seed, k as nat),
            decreases j,
        {
            j = j - 1;
            let ghost k = bits@.len();
            assert(k / 32 == draws && 31 - k % 32 == j);
            bits.push((low >> j) & 1 == 1);
        }
        proof {
            draws = draws + 1;
        }
    }
    assert(bits@ =~= chunked_bits(seed, count as nat));
    bits
}

/// Whether the pair `(a, b)` has been written once the rows before `i` are
/// done and row `i` is done up to column `j`.
pub open spec fn pair_written(i: int, j: int, a: int, b: int) -> bool {
    a != b && {
        let lo = if a < b { a } else { b };
        let hi = if a < b { b } else { a };
        lo < i || (lo == i && hi < j)
    }
}

/// The adjacency matrix of order `n` whose pairs, listed row by row, take the
/// bits of `bits` in order; the diagonal stays empty.
pub fn fill_graph(bits: &Vec<bool>, n: usize) -> (graph: Vec<Vec<bool>>)
    requires
        bits@.len() == row_offset(n as nat, n as nat),
    ensures
        graph_view(&graph) == graph_from_bits(bits@, n as nat),
        graph@.len() == n,
        is_square(graph_view(&graph)),
{
    let mut graph: Vec<Vec<bool>> = Vec::with_capacity(n);
    while graph.len() < n
        invariant
            graph@.len() <= n,
            forall|a: int| 0 <= a < graph@.len() ==> (#[trigger] graph@[a])@.len() == n,
            forall|a: int, b: int|
                0 <= a < graph@.len() && 0 <= b < n ==> #[trigger] graph@[a]@[b] == false,
        decreases n - graph@.len(),
    {
        let mut row: Vec<bool> = Vec::with_capacity(n);
        while row.len() < n
            invariant
                row@.len() <= n,
                forall|b: int| 0 <= b < row@.len() ==> row@[b] == false,
            decreases n - row@.len(),
        {
            row.push(false);
        }
        graph.push(row);
    }
    let mut bit_index: usize = 0;
    let mut i: usize = 0;
    while i < n
        invariant
            i <= n,
            graph@.len() == n,
            bits@.len() == row_offset(n as nat, n as nat),
            bit_index == row_offset(n as nat, i as nat),
            forall|a: int| 0 <= a < n ==> (#[trigger] graph@[a])@.len() == n,
            forall|a: int, b: int|
                0 <= a < n && 0 <= b < n ==> #[trigger] graph@[a]@[b] == (pair_written(
                    i as int,
                    0,
                    a,
                    b,
                ) && edge_from_bits(bits@, n as nat, a, b)),
        decreases n - i,
    {
        let mut j: usize = i + 1;
        while j < n
            invariant
                i < n,
                i < j <= n,
                graph@.len() == n,
                bits@.len() == row_offset(n as nat, n as nat),
                bit_index == row_offset(n as nat, i as nat) + (j - i - 1),
                forall|a: int| 0 <= a < n ==> (#[trigger] graph@[a])@.len() == n,
                forall|a: int, b: int|
                    0 <= a < n && 0 <= b < n ==> #[trigger] graph@[a]@[b] == (pair_written(
                        i as int,
                        j as int,
                        a,
                        b,
                    ) && edge_from_bits(bits@, n as nat, a, b)),
            decreases n - j,
        {
            proof {
                lemma_edge_index_in_range(n as nat, i as nat, j as nat);
            }
            let edge_exists: bool = bits[bit_index];
            assert(bit_index < bits.len());
            bit_index = bit_index + 1;
            graph[i][j] = edge_exists;
            graph[j][i] = edge_exists;
            j = j + 1;
        }
        i = i + 1;
    }
    assert(graph_view(&graph) =~~= graph_from_bits(bits@, n as nat));
    proof {
        lemma_graph_from_bits_shape(bits@, n as nat);
    }
    graph
}

/// A graph filled from bits is square, symmetric, and has an empty diagonal.
pub proof fn lemma_graph_from_bits_shape(bits: Seq<bool>, n: nat)
    ensures
        graph_from_bits(bits, n).len() == n,
        is_square(graph_from_bits(bits, n)),
        forall|i: int, j: int|
            0 <= i < n && 0 <= j < n ==> graph_from_bits(bits, n)[i][j] == graph_from_bits(
                bits,
                n,
            )[j][i],
        forall|i: int| 0 <= i < n ==> graph_from_bits(bits, n)[i][i] == false,
{
}

/// The order of a derived graph lies between 2000 and 2007, whatever the
/// hash.
pub proof fn lemma_grid_size_bounds(h: Hash256)
    ensures
        2000 <= spec_grid_size(h) <= 2007,
{
}

/// The canonical graph of a hash is square, joins `i` to `j` exactly where it
/// joins `j` to `i`, and joins no vertex to itself.
pub proof fn lemma_graph_symmetric(h: Hash256, n: nat, i: int, j: int)
    requires
        0 <= i < n,
        0 <= j < n,
    ensures
        spec_graph(h, n).len() == n,
        spec_graph(h, n)[i].len() == n,
        spec_graph(h, n)[i][j] == spec_graph(h, n)[j][i],
        spec_graph(h, n)[i][i] == false,
{
    lemma_graph_from_bits_shape(canonical_bits(spec_seed(h), row_offset(n, n)), n);
}

/// Two graphs generated from one hash and one order are the same matrix.
pub proof fn lemma_graph_determined(h: Hash256, n: nat, first: &Vec<Vec<bool>>, second: &Vec<
    Vec<bool>,
>)
    requires
        graph_view(first) == spec_graph(h, n),
        graph_view(second) == spec_graph(h, n),
    ensures
        first@.len() == second@.len(),
        forall|i: int, j: int|
            0 <= i < n && 0 <= j < n ==> first@[i]@[j] == second@[i]@[j],
{
    assert(spec_graph(h, n).len() == n);
    assert(graph_view(first).len() == first@.len());
    assert(graph_view(second).len() == second@.len());
    assert forall|i: int, j: int| 0 <= i < n && 0 <= j < n implies first@[i]@[j] == second@[i]@[j] by {
        assert(graph_view(first)[i] == first@[i]@);
        assert(graph_view(second)[i] == second@[i]@);
    }
}

/// In the canonical graph of `h`, the pair `(i, j)` is joined exactly where
/// the draw at the pair's place in the row-by-row listing is odd.
pub proof fn lemma_graph_edge(h: Hash256, n: nat, i: nat, j: nat)
    requires
        i < j < n,
    ensures
        spec_graph(h, n)[i as int][j as int] == (mt64_word(h.w0, edge_index(n, i, j)) & 1 == 1),
        2 * edge_index(n, i, j) == i * (2 * n - i - 1) + 2 * (j - i - 1),
{
    lemma_edge_index_in_range(n, i, j);
    lemma_row_offset_closed(n, i);
}

/// The order of the graph of `h` is 2000 plus what the first 8 of the 64 hex
/// digits of `h`, read as a number, leave on division by 8.
pub proof fn lemma_grid_size_from_hex(h: Hash256)
    ensures
        h.hex_text().len() == 64,
        spec_grid_size(h) == 2000 + hex_nat(h.hex_text().subrange(0, 8)) % 8,
{
    let digits = h.hex_text().subrange(0, 8);
    let low_byte = h.be_bytes()[3];
    lemma_hex_nat_mod_8(digits);
    lemma_lower_hex_digit((low_byte % 16) as nat);
    assert(digits.last() == h.hex_text()[7]);
    assert(low_byte == byte_of(h.w3, 4));
    lemma_byte_above_low_half(h.w3);
}

} // verus!
