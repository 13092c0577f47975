//! The searcher: it builds the graph of a hash and looks for a Hamiltonian
//! cycle in it within a time limit.

use vstd::prelude::*;
use std::time::Instant;
use crate::cycle::{
    extends_prefix, has_no_cycle, is_first_cycle, is_hamiltonian_cycle,
    lemma_cycle_visits_every_vertex, lemma_rank_after_place, lemma_rank_after_retreat,
    lemma_search_exhausted, lemma_search_found, lemma_search_place, lemma_search_retreat,
    lemma_search_skip, lemma_search_start, lex_le, not_before, nothing_passed_over, on_path,
    search_rank, smaller_at, spec_is_safe, valid_prefix, NO_VERTEX,
};
use crate::graph::{
    canonical_bit_stream, chunked_bit_stream, edge_count, fill_graph, graph_view, is_square,
    spec_graph, spec_graph_chunked, spec_grid_size, spec_seed,
};
use crate::hash256::Hash256;

verus! {

/// Number of slots in a serialised path.
pub const GRAPH_SIZE: u16 = 2008;

/// Smallest order of a generated graph.
pub const MIN_GRID_SIZE: u16 = 2000;

/// The monotonic clock reading of std, carried through as an opaque value.
#[verifier::external_type_specification]
#[verifier::external_body]
pub struct ExInstant(Instant);

/// `Instant::now`: the present reading of the monotonic clock. Nothing is
/// claimed of it.
#[verifier::external_body]
fn clock_now() -> (t: Instant) {
    Instant::now()
}

/// `Instant::elapsed`, in nanoseconds: the time that has passed since `start`.
/// Nothing is claimed of it.
#[verifier::external_body]
fn elapsed_nanos(start: &Instant) -> (nanos: u128) {
    start.elapsed().as_nanos()
}

/// Search state of one worker: the start of the running search and the time
/// it is allowed, in milliseconds.
pub struct HCGraphUtil {
    start_time: Instant,
    vdf_bailout: u64,
    expired: bool,
}

/// Time allowed to a search when none is configured, in milliseconds.
pub const DEFAULT_BAILOUT_MS: u64 = 1000;

impl HCGraphUtil {
    /// The time allowed to a search, in milliseconds.
    pub closed spec fn spec_bailout(&self) -> u64 {
        self.vdf_bailout
    }

    /// A searcher with the given time limit, or one second where none is given.
    pub fn new(vdf_bailout: Option<u64>) -> (util: Self)
        ensures
            util.spec_bailout() == (match vdf_bailout {
                Some(timer) => timer,
                None => DEFAULT_BAILOUT_MS,
            }),
            !util.spec_expired(),
    {
        let bailout_timer: u64 = match vdf_bailout {
            Some(timer) => timer,
            None => DEFAULT_BAILOUT_MS,
        };
        HCGraphUtil { start_time: clock_now(), vdf_bailout: bailout_timer, expired: false }
    }

    /// The time allowed to a search, in milliseconds.
    pub fn bailout(&self) -> (ms: u64)
        ensures
            ms == self.spec_bailout(),
    {
        self.vdf_bailout
    }

    /// Whether the latest search ran out of time.
    pub closed spec fn spec_expired(&self) -> bool {
        self.expired
    }

    /// Whether the latest search ran out of time.
    pub fn timed_out(&self) -> (expired: bool)
        ensures
            expired == self.spec_expired(),
    {
        self.expired
    }

    /// Takes note of the time that the running search has used, in
    /// nanoseconds. The search is out of time once more than its limit has
    /// passed, and stays out of time from then on. Says whether it is.
    pub fn note_elapsed(&mut self, elapsed_nanos: u128) -> (expired: bool)
        ensures
            expired == (old(self).spec_expired() || elapsed_nanos > old(self).spec_bailout()
                as nat * 1_000_000),
            final(self).spec_expired() == expired,
            final(self).spec_bailout() == old(self).spec_bailout(),
    {
        let limit: u128 = (self.vdf_bailout as u128) * 1_000_000u128;
        if !self.expired && elapsed_nanos > limit {
            self.expired = true;
        }
        self.expired
    }

    /// Reads the clock and takes note of the time used. Says whether the
    /// running search is out of time.
    fn out_of_time(&mut self) -> (expired: bool)
        ensures
            expired == final(self).spec_expired(),
            old(self).spec_expired() ==> expired,
            final(self).spec_bailout() == old(self).spec_bailout(),
    {
        let nanos: u128 = elapsed_nanos(&self.start_time);
        self.note_elapsed(nanos)
    }

    /// The generator seed: the lowest 64 bits of the hash.
    pub fn extract_seed_from_hash(&self, hash: &Hash256) -> (seed: u64)
        ensures
            seed == spec_seed(*hash),
    {
        hash.w0
    }

    /// The order of the graph derived from `hash`, between 2000 and 2007.
    pub fn get_grid_size_v2(&self, hash: &Hash256) -> (n: u16)
        ensures
            n as nat == spec_grid_size(*hash),
            MIN_GRID_SIZE <= n < GRAPH_SIZE,
    {
        let top: u64 = hash.w3 / 0x1_0000_0000u64;
        let min_grid_size: u64 = MIN_GRID_SIZE as u64;
        let max_grid_size: u64 = GRAPH_SIZE as u64;
        let grid_size_final: u64 = min_grid_size + (top % (max_grid_size - min_grid_size));
        grid_size_final as u16
    }

    /// The graph of order `grid_size` under the canonical rule: one generator
    /// draw per vertex pair, the pair joined where the draw is odd.
    pub fn generate_graph_v2(&self, hash: &Hash256, grid_size: u16) -> (graph: Vec<Vec<bool>>)
        ensures
            graph_view(&graph) == spec_graph(*hash, grid_size as nat),
            graph@.len() == grid_size,
            is_square(graph_view(&graph)),
    {
        let n: usize = grid_size as usize;
        let num_edges: usize = edge_count(n);
        let seed: u64 = self.extract_seed_from_hash(hash);
        let bit_stream: Vec<bool> = canonical_bit_stream(seed, num_edges);
        fill_graph(&bit_stream, n)
    }

    /// The graph of order `grid_size` under the chunked rule: the low 32 bits
    /// of each draw serve 32 vertex pairs, highest bit first.
    pub fn _opt(&self, hash: &Hash256, grid_size: u16) -> (graph: Vec<Vec<bool>>)
        ensures
            graph_view(&graph) == spec_graph_chunked(*hash, grid_size as nat),
            graph@.len() == grid_size,
            is_square(graph_view(&graph)),
    {
        let n: usize = grid_size as usize;
        let num_edges: usize = edge_count(n);
        let seed: u64 = self.extract_seed_from_hash(hash);
        let bit_stream: Vec<bool> = chunked_bit_stream(seed, num_edges);
        fill_graph(&bit_stream, n)
    }

    /// Whether `v` may be placed at `pos`: it is joined to the vertex before
    /// and does not occur among the first `pos` entries.
    pub fn is_safe(&self, v: u16, graph: &Vec<Vec<bool>>, path: &[u16], pos: usize) -> (safe: bool)
        requires
            is_square(graph_view(graph)),
            1 <= pos <= path@.len(),
            (path@[pos - 1] as int) < graph@.len(),
            (v as int) < graph@.len(),
        ensures
            safe == spec_is_safe(v, graph_view(graph), path@, pos as int),
    {
        assert(graph_view(graph)[path@[pos - 1] as int].len() == graph@.len());
        if !graph[path[pos - 1] as usize][v as usize] {
            return false;
        }
        let mut i: usize = 0;
        while i < pos
            invariant
                i <= pos <= path@.len(),
                forall|k: int| 0 <= k < i ==> #[trigger] path@[k] != v,
            decreases pos - i,
        {
            if path[i] == v {
                return false;
            }
            i = i + 1;
        }
        true
    }

    /// As `is_safe`, and never at position 0.
    pub fn is_safe_vp(&self, v: u16, graph: &Vec<Vec<bool>>, path: &[u16], pos: usize) -> (safe:
        bool)
        requires
            is_square(graph_view(graph)),
            pos <= path@.len(),
            pos >= 1 ==> (path@[pos - 1] as int) < graph@.len(),
            pos >= 1 ==> (v as int) < graph@.len(),
        ensures
            safe == (pos >= 1 && spec_is_safe(v, graph_view(graph), path@, pos as int)),
    {
        if pos == 0 {
            return false;
        }
        assert(graph_view(graph)[path@[pos - 1] as int].len() == graph@.len());
        if !graph[path[pos - 1] as usize][v as usize] {
            return false;
        }
        let mut i: usize = 0;
        while i < pos
            invariant
                i <= pos <= path@.len(),
                forall|k: int| 0 <= k < i ==> #[trigger] path@[k] != v,
            decreases pos - i,
        {
            if path[i] == v {
                return false;
            }
            i = i + 1;
        }
        true
    }

    /// Depth-first search from position `pos`, candidates in ascending order,
    /// given up once the time limit has passed. On success `path` is the
    /// first Hamiltonian cycle, in lexicographic order, that starts with the
    /// first `pos` entries. On failure those entries are as before, each later
    /// one is as before or empty, and unless time ran out no Hamiltonian cycle
    /// starts with them.
    pub fn hamiltonian_cycle_util(
        &mut self,
        graph: &Vec<Vec<bool>>,
        path: &mut Vec<u16>,
        pos: usize,
    ) -> (found: bool)
        requires
            is_square(graph_view(graph)),
            1 <= graph@.len() <= 0xFFFF,
            old(path)@.len() == graph@.len(),
            1 <= pos <= graph@.len(),
            valid_prefix(graph_view(graph), old(path)@, pos as int),
        ensures
            final(self).spec_bailout() == old(self).spec_bailout(),
            old(self).spec_expired() ==> final(self).spec_expired(),
            final(path)@.len() == old(path)@.len(),
            forall|i: int| 0 <= i < pos ==> final(path)@[i] == old(path)@[i],
            found ==> !final(self).spec_expired(),
            found ==> is_hamiltonian_cycle(graph_view(graph), final(path)@),
            found ==> forall|q: Seq<u16>| #[trigger]
                extends_prefix(graph_view(graph), old(path)@, pos as int, q) ==> lex_le(
                    final(path)@,
                    q,
                ),
            !found ==> forall|i: int|
                pos <= i < old(path)@.len() ==> final(path)@[i] == old(path)@[i] || final(path)@[i]
                    == NO_VERTEX,
            !found && !final(self).spec_expired() ==> forall|q: Seq<u16>|
                !#[trigger] extends_prefix(graph_view(graph), old(path)@, pos as int, q),
        decreases graph@.len() - pos,
    {
        if self.out_of_time() {
            return false;
        }
        let n: usize = graph.len();
        let ghost g = graph_view(graph);
        if pos == n {
            assert(g[path@[pos - 1] as int].len() == graph@.len());
            let closed: bool = graph[path[pos - 1] as usize][path[0] as usize];
            proof {
                assert forall|q: Seq<u16>| #[trigger]
                    extends_prefix(g, path@, pos as int, q) implies q == path@ by {
                    assert(q =~= path@);
                }
            }
            return closed;
        }
        let mut v: usize = 1;
        proof {
            assert forall|q: Seq<u16>| #[trigger]
                extends_prefix(g, path@, pos as int, q) implies q[pos as int] >= 1 by {
                assert(q[0] != q[pos as int]);
            }
        }
        while v < n
            invariant
                n == graph@.len(),
                g == graph_view(graph),
                1 <= n <= 0xFFFF,
                1 <= pos < n,
                1 <= v <= n,
                is_square(g),
                self.spec_bailout() == old(self).spec_bailout(),
                !old(self).spec_expired(),
                path@.len() == n,
                old(path)@.len() == n,
                valid_prefix(g, old(path)@, pos as int),
                forall|i: int| 0 <= i < pos ==> path@[i] == old(path)@[i],
                forall|i: int|
                    pos <= i < n ==> path@[i] == old(path)@[i] || path@[i] == NO_VERTEX,
                !self.spec_expired() ==> forall|q: Seq<u16>| #[trigger]
                    extends_prefix(g, old(path)@, pos as int, q) ==> q[pos as int] >= v,
            decreases n - v,
        {
            assert(valid_prefix(g, path@, pos as int));
            let ghost tried = path@;
            let ghost was_expired = self.spec_expired();
            if self.is_safe(v as u16, graph, path.as_slice(), pos) {
                path[pos] = v as u16;
                let ghost placed = path@;
                assert(valid_prefix(g, path@, pos + 1));
                if self.hamiltonian_cycle_util(graph, path, pos + 1) {
                    proof {
                        assert forall|q: Seq<u16>| #[trigger]
                            extends_prefix(g, old(path)@, pos as int, q) implies lex_le(
                            path@,
                            q,
                        ) by {
                            assert(q[pos as int] >= v);
                            if q[pos as int] == v {
                                assert(extends_prefix(g, placed, pos + 1, q));
                            } else {
                                assert(smaller_at(path@, q, pos as int));
                            }
                        }
                    }
                    return true;
                }
                proof {
                    if !self.spec_expired() {
                        assert forall|q: Seq<u16>| #[trigger]
                            extends_prefix(g, old(path)@, pos as int, q) implies q[pos as int] >= v
                            + 1 by {
                            if q[pos as int] == v {
                                assert(extends_prefix(g, placed, pos + 1, q));
                            }
                        }
                    }
                }
                path[pos] = NO_VERTEX;
            } else {
                proof {
                    if !self.spec_expired() {
                        assert forall|q: Seq<u16>| #[trigger]
                            extends_prefix(g, old(path)@, pos as int, q) implies q[pos as int] >= v
                            + 1 by {
                            if q[pos as int] == v {
                                assert(g[q[pos - 1] as int][q[pos as int] as int]);
                                assert forall|i: int| 0 <= i < pos implies #[trigger] tried[i]
                                    != v as u16 by {
                                    assert(q[i] != q[pos as int]);
                                }
                                assert(spec_is_safe(v as u16, g, tried, pos as int));
                            }
                        }
                    }
                }
            }
            v = v + 1;
        }
        proof {
            if !self.spec_expired() {
                assert forall|q: Seq<u16>| !#[trigger]
                    extends_prefix(g, old(path)@, pos as int, q) by {
                    if extends_prefix(g, old(path)@, pos as int, q) {
                        assert(q[pos as int] >= n);
                        assert((q[pos as int] as int) < g.len());
                    }
                }
            }
        }
        false
    }

    /// The same search with an explicit stack in place of recursion.
    /// `visited` marks the vertices on the path; at the start it marks no
    /// vertex but 0. On success `path` is the first Hamiltonian cycle of
    /// `graph` in lexicographic order and every vertex is marked. On failure,
    /// unless time ran out, `graph` has none, the marks are as before, and
    /// each slot of `path` is as before or empty. The mark of vertex 0 is
    /// never touched.
    pub fn hamiltonian_cycle_util_vp(
        &mut self,
        graph: &Vec<Vec<bool>>,
        path: &mut Vec<u16>,
        visited: &mut Vec<bool>,
    ) -> (found: bool)
        requires
            is_square(graph_view(graph)),
            1 <= graph@.len() <= 0xFFFF,
            old(path)@.len() == graph@.len(),
            old(visited)@.len() == graph@.len(),
            old(path)@[0] == 0,
            forall|u: int| 1 <= u < graph@.len() ==> !old(visited)@[u],
        ensures
            final(self).spec_bailout() == old(self).spec_bailout(),
            old(self).spec_expired() ==> final(self).spec_expired(),
            final(path)@.len() == old(path)@.len(),
            final(visited)@.len() == old(visited)@.len(),
            final(path)@[0] == 0,
            final(visited)@[0] == old(visited)@[0],
            found ==> !final(self).spec_expired(),
            found ==> is_first_cycle(graph_view(graph), final(path)@),
            found ==> forall|v: int| 1 <= v < graph@.len() ==> final(visited)@[v],
            !found && !final(self).spec_expired() ==> has_no_cycle(graph_view(graph)),
            !found && !final(self).spec_expired() ==> final(visited)@ == old(visited)@,
            !found && !final(self).spec_expired() ==> forall|i: int|
                1 <= i < graph@.len() ==> final(path)@[i] == old(path)@[i] || final(path)@[i]
                    == NO_VERTEX,
    {
        let n: usize = graph.len();
        let ghost g = graph_view(graph);
        let mut position_vertex_stack: Vec<(usize, usize)> = Vec::new();
        let mut pos: usize = 1;
        let mut vertex: usize = 1;
        proof {
            assert forall|q: Seq<u16>| #[trigger] is_hamiltonian_cycle(g, q) implies not_before(
                q,
                path@,
                1,
                1,
            ) by {
                lemma_search_start(g, q, path@);
            }
            assert forall|u: int| 0 <= u < n && visited@[u] implies on_path(path@, 1, u) by {
                assert(path@[0] == u);
            }
        }
        loop
            invariant
                n == graph@.len(),
                g == graph_view(graph),
                1 <= n <= 0xFFFF,
                is_square(g),
                self.spec_bailout() == old(self).spec_bailout(),
                old(self).spec_expired() ==> self.spec_expired(),
                path@.len() == n,
                visited@.len() == n,
                old(path)@.len() == n,
                old(visited)@.len() == n,
                1 <= pos <= n,
                1 <= vertex <= n,
                valid_prefix(g, path@, pos as int),
                position_vertex_stack@.len() == pos - 1,
                forall|k: int|
                    0 <= k < position_vertex_stack@.len() ==> (#[trigger] position_vertex_stack@[k]).0
                        == k + 1 && position_vertex_stack@[k].1 == path@[k + 1],
                forall|u: int| 0 <= u < n && visited@[u] ==> on_path(path@, pos as int, u),
                forall|i: int| 1 <= i < pos ==> visited@[#[trigger] path@[i] as int],
                visited@[0] == old(visited)@[0],
                forall|u: int| 1 <= u < n ==> !old(visited)@[u],
                forall|i: int|
                    pos <= i < n ==> path@[i] == old(path)@[i] || path@[i] == NO_VERTEX,
                !self.spec_expired() ==> nothing_passed_over(g, path@, pos as int, vertex as int),
            decreases search_rank(path@, n as nat, pos as nat, vertex as nat),
        {
            if self.out_of_time() {
                return false;
            }
            let ghost path_before = path@;
            let ghost tried = vertex;
            let ghost pos_before = pos;
            let mut placed: bool = false;
            if pos == n {
                assert(g[path@[pos - 1] as int].len() == graph@.len());
                if graph[path[pos - 1] as usize][path[0] as usize] {
                    proof {
                        lemma_search_found(g, path@);
                        assert forall|v: int| 1 <= v < n implies visited@[v] by {
                            lemma_cycle_visits_every_vertex(g, path@, v);
                            let i = choose|i: int| 0 <= i < n && #[trigger] path@[i] == v;
                            assert(visited@[path@[i] as int]);
                        }
                    }
                    return true;
                }
            } else {
                while !placed && vertex < n
                    invariant
                        n == graph@.len(),
                        g == graph_view(graph),
                        1 <= n <= 0xFFFF,
                        is_square(g),
                        !self.spec_expired(),
                        path@.len() == n,
                        visited@.len() == n,
                        path_before.len() == n,
                        1 <= tried <= n,
                        1 <= vertex <= n,
                        !placed ==> tried <= vertex,
                        !placed ==> 1 <= pos < n && pos == pos_before,
                        placed ==> pos == pos_before + 1,
                        !placed ==> path@ == path_before,
                        !placed ==> position_vertex_stack@.len() == pos - 1,
                        placed ==> 2 <= pos <= n && vertex == 1,
                        placed ==> position_vertex_stack@.len() == pos - 1,
                        placed ==> search_rank(path@, n as nat, pos as nat, 1) < search_rank(
                            path_before,
                            n as nat,
                            (pos - 1) as nat,
                            tried as nat,
                        ),
                        valid_prefix(g, path@, pos as int),
                        forall|k: int|
                            0 <= k < position_vertex_stack@.len() ==> (
                            #[trigger] position_vertex_stack@[k]).0 == k + 1
                                && position_vertex_stack@[k].1 == path@[k + 1],
                        forall|u: int| 0 <= u < n && visited@[u] ==> on_path(path@, pos as int, u),
                        forall|i: int| 1 <= i < pos ==> visited@[#[trigger] path@[i] as int],
                        visited@[0] == old(visited)@[0],
                        old(path)@.len() == n,
                        forall|i: int|
                            pos <= i < n ==> path@[i] == old(path)@[i] || path@[i] == NO_VERTEX,
                        nothing_passed_over(g, path@, pos as int, vertex as int),
                    decreases (if placed { 0int } else { 1int }), n - vertex,
                {
                    let ghost scanned = path@;
                    if !visited[vertex] && self.is_safe_vp(
                        vertex as u16,
                        graph,
                        path.as_slice(),
                        pos,
                    ) {
                        proof {
                            lemma_rank_after_place(
                                path@,
                                path@.update(pos as int, vertex as u16),
                                n as nat,
                                pos as nat,
                                tried as nat,
                                vertex as nat,
                            );
                        }
                        let ghost marks = visited@;
                        path[pos] = vertex as u16;
                        visited[vertex] = true;
                        position_vertex_stack.push((pos, vertex));
                        proof {
                            assert forall|q: Seq<u16>| #[trigger]
                                is_hamiltonian_cycle(g, q) implies not_before(
                                q,
                                path@,
                                pos + 1,
                                1,
                            ) by {
                                lemma_search_place(g, q, scanned, path@, pos as int, vertex as int);
                            }
                            assert forall|u: int| 0 <= u < n && visited@[u] implies on_path(
                                path@,
                                pos + 1,
                                u,
                            ) by {
                                if u == vertex {
                                    assert(path@[pos as int] == u);
                                } else {
                                    assert(marks[u]);
                                    let i = choose|i: int| 0 <= i < pos && #[trigger] scanned[i] == u;
                                    assert(path@[i] == u);
                                }
                            }
                        }
                        pos = pos + 1;
                        vertex = 1;
                        placed = true;
                    } else {
                        proof {
                            assert forall|q: Seq<u16>| #[trigger]
                                is_hamiltonian_cycle(g, q) implies not_before(
                                q,
                                path@,
                                pos as int,
                                vertex + 1,
                            ) by {
                                lemma_search_skip(g, q, path@, pos as int, vertex as int);
                            }
                        }
                        vertex = vertex + 1;
                    }
                }
            }
            if !placed {
                match position_vertex_stack.pop() {
                    Some((prev_pos, prev_vertex)) => {
                        assert(prev_pos == pos - 1 && prev_vertex == path@[pos - 1]);
                        let ghost marks = visited@;
                        let taken: usize = path[prev_pos] as usize;
                        visited[taken] = false;
                        path[prev_pos] = NO_VERTEX;
                        proof {
                            lemma_rank_after_retreat(
                                path_before,
                                path@,
                                n as nat,
                                pos as nat,
                                tried as nat,
                            );
                            assert forall|q: Seq<u16>| #[trigger]
                                is_hamiltonian_cycle(g, q) implies not_before(
                                q,
                                path@,
                                pos - 1,
                                prev_vertex + 1,
                            ) by {
                                lemma_search_retreat(
                                    g,
                                    q,
                                    path_before,
                                    path@,
                                    pos as int,
                                    vertex as int,
                                );
                            }
                            assert forall|u: int| 0 <= u < n && visited@[u] implies on_path(
                                path@,
                                pos - 1,
                                u,
                            ) by {
                                assert(marks[u] && u != taken);
                                let i = choose|i: int|
                                    0 <= i < pos && #[trigger] path_before[i] == u;
                                assert(i != pos - 1);
                                assert(path@[i] == u);
                            }
                        }
                        pos = prev_pos;
                        vertex = prev_vertex + 1;
                    },
                    None => {
                        proof {
                            assert forall|u: int| 0 <= u < n implies visited@[u] == old(
                                visited,
                            )@[u] by {
                                if u >= 1 && visited@[u] {
                                    let i = choose|i: int| 0 <= i < 1 && #[trigger] path@[i] == u;
                                    assert(path@[0] == u);
                                }
                            }
                            assert(visited@ =~= old(visited)@);
                            assert forall|q: Seq<u16>| !#[trigger] is_hamiltonian_cycle(g, q) by {
                                if is_hamiltonian_cycle(g, q) {
                                    assert(not_before(q, path@, 1, vertex as int));
                                    lemma_search_exhausted(g, q, path@, vertex as int);
                                }
                            }
                        }
                        return false;
                    },
                }
            }
        }
    }

    /// Searches `graph` for a Hamiltonian cycle from vertex 0 within the time
    /// limit, by recursion, candidates in ascending order. Returns the first
    /// Hamiltonian cycle in lexicographic order, or an empty path; the path is
    /// empty only where time ran out or the graph has no such cycle.
    pub fn find_cycle(&mut self, graph: &Vec<Vec<bool>>) -> (path: Vec<u16>)
        requires
            is_square(graph_view(graph)),
            1 <= graph@.len() <= 0xFFFF,
        ensures
            final(self).spec_bailout() == old(self).spec_bailout(),
            path@.len() == 0 || is_first_cycle(graph_view(graph), path@),
            path@.len() == 0 ==> final(self).spec_expired() || has_no_cycle(graph_view(graph)),
            path@.len() != 0 ==> !final(self).spec_expired(),
    {
        let mut path: Vec<u16> = empty_path(graph.len());
        path[0] = 0;
        self.start_time = clock_now();
        self.expired = false;
        let ghost start = path@;
        let ghost g = graph_view(graph);
        proof {
            assert forall|q: Seq<u16>| #[trigger] is_hamiltonian_cycle(g, q) implies extends_prefix(
                g,
                start,
                1,
                q,
            ) by {}
        }
        if !self.hamiltonian_cycle_util(graph, &mut path, 1) {
            return Vec::new();
        }
        path
    }

    /// As `find_cycle`, with the explicit-stack search.
    pub fn find_cycle_vp(&mut self, graph: &Vec<Vec<bool>>) -> (path: Vec<u16>)
        requires
            is_square(graph_view(graph)),
            1 <= graph@.len() <= 0xFFFF,
        ensures
            final(self).spec_bailout() == old(self).spec_bailout(),
            path@.len() == 0 || is_first_cycle(graph_view(graph), path@),
            path@.len() == 0 ==> final(self).spec_expired() || has_no_cycle(graph_view(graph)),
            path@.len() != 0 ==> !final(self).spec_expired(),
    {
        let mut path: Vec<u16> = empty_path(graph.len());
        path[0] = 0;
        let mut visited: Vec<bool> = unvisited(graph.len());
        visited[0] = true;
        self.start_time = clock_now();
        self.expired = false;
        if !self.hamiltonian_cycle_util_vp(graph, &mut path, &mut visited) {
            return Vec::new();
        }
        path
    }

    /// Builds the canonical graph of `graph_hash` and searches it for a
    /// Hamiltonian cycle by recursion. Returns the cycle, as long as the graph
    /// has vertices, or an empty path where none was found in time.
    pub fn find_hamiltonian_cycle_v2(&mut self, graph_hash: Hash256) -> (path: Vec<u16>)
        ensures
            final(self).spec_bailout() == old(self).spec_bailout(),
            path@.len() == 0 || is_first_cycle(
                spec_graph(graph_hash, spec_grid_size(graph_hash)),
                path@,
            ),
            path@.len() == 0 ==> final(self).spec_expired() || has_no_cycle(
                spec_graph(graph_hash, spec_grid_size(graph_hash)),
            ),
            path@.len() != 0 ==> !final(self).spec_expired(),
    {
        let grid_size: u16 = self.get_grid_size_v2(&graph_hash);
        let graph: Vec<Vec<bool>> = self.generate_graph_v2(&graph_hash, grid_size);
        self.find_cycle(&graph)
    }

    /// Builds the chunked graph of `graph_hash` and searches it for a
    /// Hamiltonian cycle with the explicit stack. Returns the cycle, or an
    /// empty path where none was found in time.
    pub fn find_hamiltonian_cycle_vp(&mut self, graph_hash: Hash256) -> (path: Vec<u16>)
        ensures
            final(self).spec_bailout() == old(self).spec_bailout(),
            path@.len() == 0 || is_first_cycle(
                spec_graph_chunked(graph_hash, spec_grid_size(graph_hash)),
                path@,
            ),
            path@.len() == 0 ==> final(self).spec_expired() || has_no_cycle(
                spec_graph_chunked(graph_hash, spec_grid_size(graph_hash)),
            ),
            path@.len() != 0 ==> !final(self).spec_expired(),
    {
        let grid_size: u16 = self.get_grid_size_v2(&graph_hash);
        let graph: Vec<Vec<bool>> = self._opt(&graph_hash, grid_size);
        self.find_cycle_vp(&graph)
    }
}

/// A path of `n` empty slots.
pub fn empty_path(n: usize) -> (path: Vec<u16>)
    ensures
        path@.len() == n,
        forall|i: int| 0 <= i < n ==> path@[i] == NO_VERTEX,
{
    let mut path: Vec<u16> = Vec::with_capacity(n);
    while path.len() < n
        invariant
            path@.len() <= n,
            forall|i: int| 0 <= i < path@.len() ==> path@[i] == NO_VERTEX,
        decreases n - path@.len(),
    {
        path.push(NO_VERTEX);
    }
    path
}

/// `n` marks, none of them set.
pub fn unvisited(n: usize) -> (marks: Vec<bool>)
    ensures
        marks@.len() == n,
        forall|i: int| 0 <= i < n ==> marks@[i] == false,
{
    let mut marks: Vec<bool> = Vec::with_capacity(n);
    while marks.len() < n
        invariant
            marks@.len() <= n,
            forall|i: int| 0 <= i < marks@.len() ==> marks@[i] == false,
        decreases n - marks@.len(),
    {
        marks.push(false);
    }
    marks
}

} // verus!
