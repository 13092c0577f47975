use rand_mt::Mt19937GenRand64;
use shaipot::hash256::Hash256;
use shaipot::graph::{canonical_bit_stream, chunked_bit_stream, edge_count, fill_graph};
use shaipot::vdf_solution::{HCGraphUtil, GRAPH_SIZE};

fn hash_with(w0: u64, w3: u64) -> Hash256 {
    Hash256 { w0, w1: 0, w2: 0, w3 }
}

fn expected_canonical(seed: u64, n: usize) -> Vec<Vec<bool>> {
    let mut prng = Mt19937GenRand64::new(seed);
    let mut graph = vec![vec![false; n]; n];
    for i in 0..n {
        for j in (i + 1)..n {
            let bit = prng.next_u64() & 1 == 1;
            graph[i][j] = bit;
            graph[j][i] = bit;
        }
    }
    graph
}

fn expected_chunked(seed: u64, n: usize) -> Vec<Vec<bool>> {
    let mut prng = Mt19937GenRand64::new(seed);
    let mut bits = Vec::new();
    let needed = n * (n - 1) / 2;
    while bits.len() < needed {
        let word = (prng.next_u64() & 0xFFFF_FFFF) as u32;
        for j in (0..32).rev() {
            bits.push((word >> j) & 1 == 1);
        }
    }
    let mut graph = vec![vec![false; n]; n];
    let mut k = 0;
    for i in 0..n {
        for j in (i + 1)..n {
            graph[i][j] = bits[k];
            graph[j][i] = bits[k];
            k += 1;
        }
    }
    graph
}

#[test]
fn zero_seed_gives_smallest_grid() {
    let util = HCGraphUtil::new(None);
    let h = hash_with(0, 0);
    assert_eq!(util.get_grid_size_v2(&h), 2000);
    assert_eq!(util.extract_seed_from_hash(&h), 0);
}

#[test]
fn grid_size_reads_top_32_bits_modulo_8() {
    let util = HCGraphUtil::new(None);
    assert_eq!(util.get_grid_size_v2(&hash_with(0, 0x0000_0007_0000_0000)), 2007);
    assert_eq!(util.get_grid_size_v2(&hash_with(0, 0x0000_0008_0000_0000)), 2000);
    assert_eq!(util.get_grid_size_v2(&hash_with(0, 0x0000_000b_ffff_ffff)), 2003);
    assert_eq!(util.get_grid_size_v2(&hash_with(9, u64::MAX)), 2007);
    assert_eq!(util.get_grid_size_v2(&hash_with(u64::MAX, 0x0000_0000_ffff_ffff)), 2000);
}

#[test]
fn grid_size_stays_within_bounds() {
    let util = HCGraphUtil::new(None);
    let mut w3: u64 = 0x9e37_79b9_7f4a_7c15;
    for _ in 0..1000 {
        w3 = w3.wrapping_mul(6364136223846793005).wrapping_add(1442695040888963407);
        let n = util.get_grid_size_v2(&hash_with(1, w3));
        assert!(n >= 2000 && n <= 2007);
        assert!(n < GRAPH_SIZE);
    }
}

#[test]
fn seed_is_lowest_word() {
    let util = HCGraphUtil::new(None);
    let h = Hash256 { w0: 0x0123_4567_89ab_cdef, w1: 1, w2: 2, w3: 3 };
    assert_eq!(util.extract_seed_from_hash(&h), 0x0123_4567_89ab_cdef);
}

#[test]
fn edge_count_is_number_of_pairs() {
    assert_eq!(edge_count(1), 0);
    assert_eq!(edge_count(2), 1);
    assert_eq!(edge_count(5), 10);
    assert_eq!(edge_count(2000), 1_999_000);
    assert_eq!(edge_count(2007), 2_013_021);
}

#[test]
fn canonical_stream_takes_lowest_bit_of_each_draw() {
    // MT19937-64 seeded with 5489 starts with 14514284786278117030, an even number.
    let bits = canonical_bit_stream(5489, 1);
    assert_eq!(bits, vec![false]);
    let mut prng = Mt19937GenRand64::new(42);
    let expected: Vec<bool> = (0..100).map(|_| prng.next_u64() & 1 == 1).collect();
    assert_eq!(canonical_bit_stream(42, 100), expected);
    assert_eq!(canonical_bit_stream(42, 0), Vec::<bool>::new());
}

#[test]
fn chunked_stream_reads_low_32_bits_high_bit_first() {
    let mut prng = Mt19937GenRand64::new(7);
    let mut expected = Vec::new();
    for _ in 0..3 {
        let word = (prng.next_u64() & 0xFFFF_FFFF) as u32;
        for j in (0..32).rev() {
            expected.push((word >> j) & 1 == 1);
        }
    }
    assert_eq!(chunked_bit_stream(7, 96), expected);
    expected.truncate(70);
    assert_eq!(chunked_bit_stream(7, 70), expected);
    expected.truncate(32);
    assert_eq!(chunked_bit_stream(7, 32), expected);
}

#[test]
fn fill_graph_places_bits_row_by_row() {
    let bits = vec![true, false, true, true, false, true];
    let graph = fill_graph(&bits, 4);
    let expected = vec![
        vec![false, true, false, true],
        vec![true, false, true, false],
        vec![false, true, false, true],
        vec![true, false, true, false],
    ];
    assert_eq!(graph, expected);
    assert_eq!(fill_graph(&Vec::new(), 1), vec![vec![false]]);
    assert_eq!(fill_graph(&Vec::new(), 0), Vec::<Vec<bool>>::new());
}

#[test]
fn small_canonical_graph_matches_generator() {
    let util = HCGraphUtil::new(None);
    for seed in [0u64, 1, 5489, u64::MAX] {
        let h = hash_with(seed, 0);
        let graph = util.generate_graph_v2(&h, 9);
        assert_eq!(graph, expected_canonical(seed, 9));
    }
}

#[test]
fn small_chunked_graph_matches_generator() {
    let util = HCGraphUtil::new(None);
    for seed in [0u64, 1, 5489, u64::MAX] {
        let h = hash_with(seed, 0);
        let graph = util._opt(&h, 12);
        assert_eq!(graph, expected_chunked(seed, 12));
    }
}

#[test]
fn the_two_rules_give_different_graphs() {
    let util = HCGraphUtil::new(None);
    let h = hash_with(5489, 0);
    assert_ne!(util.generate_graph_v2(&h, 40), util._opt(&h, 40));
}

#[test]
fn graph_is_symmetric_with_empty_diagonal() {
    let util = HCGraphUtil::new(None);
    let h = hash_with(0xfeed_beef, 0);
    let graph = util.generate_graph_v2(&h, 64);
    assert_eq!(graph.len(), 64);
    for i in 0..64 {
        assert_eq!(graph[i].len(), 64);
        assert!(!graph[i][i]);
        for j in 0..64 {
            assert_eq!(graph[i][j], graph[j][i]);
        }
    }
}

#[test]
fn zero_seed_graph_is_reproducible() {
    let util = HCGraphUtil::new(None);
    let h = hash_with(0, 0);
    let n = util.get_grid_size_v2(&h);
    assert_eq!(n, 2000);
    let first = util.generate_graph_v2(&h, n);
    let second = util.generate_graph_v2(&h, n);
    assert_eq!(first.len(), 2000);
    assert!(first == second);
    assert!(first == expected_canonical(0, 2000));
}

#[test]
fn graph_of_one_vertex_has_no_edge() {
    let util = HCGraphUtil::new(None);
    assert_eq!(util.generate_graph_v2(&hash_with(3, 0), 1), vec![vec![false]]);
    assert_eq!(util._opt(&hash_with(3, 0), 1), vec![vec![false]]);
}
