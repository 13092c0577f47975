//! Hamiltonian cycles: what they are, which of them a search in ascending
//! order finds, and why such a search ends.

use vstd::prelude::*;

verus! {

/// The first `len` entries of `p` start at vertex 0, name vertices of `g`,
/// name none twice, and each is joined to the one before it.
pub open spec fn valid_prefix(g: Seq<Seq<bool>>, p: Seq<u16>, len: int) -> bool {
    &&& 1 <= len <= p.len()
    &&& p[0] == 0
    &&& forall|i: int| 0 <= i < len ==> (#[trigger] p[i] as int) < g.len()
    &&& forall|i: int, j: int| 0 <= i < j < len ==> #[trigger] p[i] != #[trigger] p[j]
    &&& forall|i: int| 1 <= i < len ==> g[p[i - 1] as int][#[trigger] p[i] as int]
}

/// `p` is a Hamiltonian cycle of `g`: it starts at vertex 0, visits each of
/// the `g.len()` vertices once along edges of `g`, and its last vertex is
/// joined to its first.
pub open spec fn is_hamiltonian_cycle(g: Seq<Seq<bool>>, p: Seq<u16>) -> bool {
    &&& p.len() == g.len()
    &&& valid_prefix(g, p, p.len() as int)
    &&& g[p[p.len() - 1] as int][p[0] as int]
}

/// `p` and `q` agree before position `k`, where `p` names the smaller vertex.
pub open spec fn smaller_at(p: Seq<u16>, q: Seq<u16>, k: int) -> bool {
    &&& 0 <= k < p.len()
    &&& k < q.len()
    &&& p[k] < q[k]
    &&& forall|i: int| 0 <= i < k ==> p[i] == q[i]
}

/// `p` comes no later than `q` in lexicographic order.
pub open spec fn lex_le(p: Seq<u16>, q: Seq<u16>) -> bool {
    p == q || exists|k: int| smaller_at(p, q, k)
}

/// `q` and `p` hold the same vertices before position `k`.
pub open spec fn agree_before(q: Seq<u16>, p: Seq<u16>, k: int) -> bool {
    forall|i: int| 0 <= i < k ==> #[trigger] q[i] == p[i]
}

/// `q` is a Hamiltonian cycle of `g` that starts with the first `pos` entries
/// of `p`.
pub open spec fn extends_prefix(g: Seq<Seq<bool>>, p: Seq<u16>, pos: int, q: Seq<u16>) -> bool {
    is_hamiltonian_cycle(g, q) && agree_before(q, p, pos)
}

/// `p` is the Hamiltonian cycle of `g` that comes first in lexicographic
/// order: the one that a search in ascending order meets first.
pub open spec fn is_first_cycle(g: Seq<Seq<bool>>, p: Seq<u16>) -> bool {
    &&& is_hamiltonian_cycle(g, p)
    &&& forall|q: Seq<u16>| #[trigger] is_hamiltonian_cycle(g, q) ==> lex_le(p, q)
}

/// `g` has no Hamiltonian cycle from vertex 0.
pub open spec fn has_no_cycle(g: Seq<Seq<bool>>) -> bool {
    forall|q: Seq<u16>| !#[trigger] is_hamiltonian_cycle(g, q)
}

/// Vertex `u` stands on the path `p` before position `pos`.
pub open spec fn on_path(p: Seq<u16>, pos: int, u: int) -> bool {
    exists|i: int| 0 <= i < pos && #[trigger] p[i] == u
}

/// The cycle `q` does not come before the place that a search has reached
/// when it holds the first `pos` entries of `p` and will next try `vertex`.
pub open spec fn not_before(q: Seq<u16>, p: Seq<u16>, pos: int, vertex: int) -> bool {
    &&& forall|k: int| 1 <= k < pos && #[trigger] agree_before(q, p, k) ==> q[k] >= p[k]
    &&& (pos < q.len() && agree_before(q, p, pos) ==> q[pos] >= vertex)
}

/// No Hamiltonian cycle of `g` comes before the place that the search has
/// reached: the search has passed over none.
pub open spec fn nothing_passed_over(g: Seq<Seq<bool>>, p: Seq<u16>, pos: int, vertex: int) -> bool {
    forall|q: Seq<u16>| #[trigger] is_hamiltonian_cycle(g, q) ==> not_before(q, p, pos, vertex)
}

/// Vertex `v` may be placed at position `pos`: it is joined to the vertex at
/// `pos - 1` and occurs nowhere before `pos`.
pub open spec fn spec_is_safe(v: u16, g: Seq<Seq<bool>>, p: Seq<u16>, pos: int) -> bool {
    &&& g[p[pos - 1] as int][v as int]
    &&& forall|i: int| 0 <= i < pos ==> #[trigger] p[i] != v
}

/// Marks an empty slot of a path.
pub const NO_VERTEX: u16 = 0xFFFF;

/// Size of the search space below a position with `depth` positions still to
/// fill: `(n + 1)` to the power `depth`.
pub open spec fn slot_weight(n: nat, depth: nat) -> nat
    decreases depth,
{
    if depth == 0 {
        1
    } else {
        (n + 1) * slot_weight(n, (depth - 1) as nat)
    }
}

/// What the choices made at positions `1..pos` leave of the search space.
pub open spec fn prefix_rank(p: Seq<u16>, n: nat, pos: nat) -> nat
    decreases pos,
{
    if pos <= 1 {
        0
    } else {
        prefix_rank(p, n, (pos - 1) as nat) + ((n - p[pos - 1]) as nat) * slot_weight(
            n,
            (n - (pos - 1)) as nat,
        )
    }
}

/// What is left of the search space when the search stands at `pos` and will
/// next try `vertex` there. Every step of the search lowers it.
pub open spec fn search_rank(p: Seq<u16>, n: nat, pos: nat, vertex: nat) -> nat {
    prefix_rank(p, n, pos) + ((n + 1 - vertex) as nat) * slot_weight(n, (n - pos) as nat)
}

/// Every position has something below it.
pub proof fn lemma_slot_weight_positive(n: nat, depth: nat)
    ensures
        slot_weight(n, depth) > 0,
    decreases depth,
{
    if depth > 0 {
        lemma_slot_weight_positive(n, (depth - 1) as nat);
        assert((n + 1) * slot_weight(n, (depth - 1) as nat) > 0) by (nonlinear_arith)
            requires
                slot_weight(n, (depth - 1) as nat) > 0,
        ;
    }
}

/// `prefix_rank` reads only the entries at positions `1..pos`.
pub proof fn lemma_prefix_rank_same(p: Seq<u16>, q: Seq<u16>, n: nat, pos: nat)
    requires
        forall|i: int| 1 <= i < pos ==> p[i] == q[i],
    ensures
        prefix_rank(p, n, pos) == prefix_rank(q, n, pos),
    decreases pos,
{
    if pos > 1 {
        lemma_prefix_rank_same(p, q, n, (pos - 1) as nat);
    }
}

/// Placing `v` at `pos` and moving on to `pos + 1` lowers the rank.
pub proof fn lemma_rank_after_place(p: Seq<u16>, q: Seq<u16>, n: nat, pos: nat, tried: nat, v: nat)
    requires
        1 <= pos < n,
        1 <= tried <= v < n,
        pos < p.len(),
        q == p.update(pos as int, v as u16),
        v <= 0xFFFF,
    ensures
        search_rank(q, n, pos + 1, 1) < search_rank(p, n, pos, tried),
{
    lemma_prefix_rank_same(p, q, n, pos);
    let w = slot_weight(n, (n - pos) as nat);
    let below = slot_weight(n, (n - pos - 1) as nat);
    lemma_slot_weight_positive(n, (n - pos - 1) as nat);
    assert(w == (n + 1) * below);
    assert(prefix_rank(q, n, pos + 1) == prefix_rank(q, n, pos) + ((n - v) as nat) * w);
    assert((n - v) * w + n * below < (n + 1 - tried) * w) by (nonlinear_arith)
        requires
            w == (n + 1) * below,
            below > 0,
            1 <= tried <= v < n,
    ;
}

/// Taking back the vertex at `pos - 1` and moving on to the next candidate
/// there lowers the rank.
pub proof fn lemma_rank_after_retreat(p: Seq<u16>, q: Seq<u16>, n: nat, pos: nat, tried: nat)
    requires
        2 <= pos <= n,
        1 <= tried <= n,
        pos <= p.len(),
        p.len() == q.len(),
        p[pos - 1] < n,
        forall|i: int| 1 <= i < pos - 1 ==> p[i] == q[i],
    ensures
        search_rank(q, n, (pos - 1) as nat, (p[pos - 1] + 1) as nat) < search_rank(
            p,
            n,
            pos,
            tried,
        ),
{
    lemma_prefix_rank_same(p, q, n, (pos - 1) as nat);
    let w = slot_weight(n, (n - pos) as nat);
    lemma_slot_weight_positive(n, (n - pos) as nat);
    assert((n + 1 - tried) * w > 0) by (nonlinear_arith)
        requires
            w > 0,
            1 <= tried <= n,
    ;
}

/// A search that has just begun has passed over nothing.
pub proof fn lemma_search_start(g: Seq<Seq<bool>>, q: Seq<u16>, p: Seq<u16>)
    requires
        is_hamiltonian_cycle(g, q),
        p.len() == g.len(),
        p[0] == 0,
    ensures
        not_before(q, p, 1, 1),
{
    if 1 < q.len() {
        assert(q[0] != q[1]);
    }
}

/// A candidate that is on the path already, or may not be placed, starts no
/// Hamiltonian cycle: the search may go on to the next one.
pub proof fn lemma_search_skip(g: Seq<Seq<bool>>, q: Seq<u16>, p: Seq<u16>, pos: int, vertex: int)
    requires
        is_hamiltonian_cycle(g, q),
        p.len() == g.len(),
        1 <= pos < g.len(),
        0 <= vertex <= 0xFFFF,
        not_before(q, p, pos, vertex),
        on_path(p, pos, vertex) || !spec_is_safe(vertex as u16, g, p, pos),
    ensures
        not_before(q, p, pos, vertex + 1),
{
    if agree_before(q, p, pos) && q[pos] == vertex {
        assert(q[pos - 1] == p[pos - 1]);
        assert(g[q[pos - 1] as int][q[pos] as int]);
        if on_path(p, pos, vertex) {
            let i = choose|i: int| 0 <= i < pos && #[trigger] p[i] == vertex;
            assert(q[i] == p[i]);
            assert(q[i] != q[pos]);
        } else {
            assert forall|i: int| 0 <= i < pos implies #[trigger] p[i] != vertex as u16 by {
                assert(q[i] == p[i]);
                assert(q[i] != q[pos]);
            }
        }
    }
}

/// Placing the candidate that the search has reached passes over nothing.
pub proof fn lemma_search_place(
    g: Seq<Seq<bool>>,
    q: Seq<u16>,
    p: Seq<u16>,
    placed: Seq<u16>,
    pos: int,
    vertex: int,
)
    requires
        is_hamiltonian_cycle(g, q),
        p.len() == g.len(),
        1 <= pos < g.len(),
        0 <= vertex <= 0xFFFF,
        not_before(q, p, pos, vertex),
        placed == p.update(pos, vertex as u16),
    ensures
        not_before(q, placed, pos + 1, 1),
{
    assert forall|k: int| 1 <= k < pos + 1 && #[trigger] agree_before(q, placed, k) implies q[k]
        >= placed[k] by {
        assert forall|i: int| 0 <= i < k implies #[trigger] q[i] == p[i] by {
            assert(q[i] == placed[i]);
        }
        assert(agree_before(q, p, k));
    }
    if pos + 1 < q.len() {
        assert(q[0] != q[pos + 1]);
    }
}

/// Where no Hamiltonian cycle starts with the first `pos` entries, taking
/// back the last of them and going on to the next candidate passes over
/// nothing.
pub proof fn lemma_search_retreat(
    g: Seq<Seq<bool>>,
    q: Seq<u16>,
    p: Seq<u16>,
    taken_back: Seq<u16>,
    pos: int,
    vertex: int,
)
    requires
        is_hamiltonian_cycle(g, q),
        p.len() == g.len(),
        taken_back.len() == g.len(),
        2 <= pos <= g.len(),
        not_before(q, p, pos, vertex),
        pos < g.len() ==> vertex >= g.len(),
        pos == g.len() ==> !g[p[pos - 1] as int][p[0] as int],
        forall|i: int| 0 <= i < pos - 1 ==> taken_back[i] == p[i],
    ensures
        not_before(q, taken_back, pos - 1, p[pos - 1] + 1),
{
    assert forall|k: int| 1 <= k < pos - 1 && #[trigger] agree_before(q, taken_back, k) implies q[k]
        >= taken_back[k] by {
        assert forall|i: int| 0 <= i < k implies #[trigger] q[i] == p[i] by {
            assert(q[i] == taken_back[i]);
        }
        assert(agree_before(q, p, k));
    }
    if agree_before(q, taken_back, pos - 1) {
        assert forall|i: int| 0 <= i < pos - 1 implies #[trigger] q[i] == p[i] by {
            assert(q[i] == taken_back[i]);
        }
        assert(agree_before(q, p, pos - 1));
        assert(q[pos - 1] >= p[pos - 1]);
        if q[pos - 1] == p[pos - 1] {
            assert(agree_before(q, p, pos));
            if pos < g.len() {
                assert((q[pos] as int) < g.len());
            } else {
                assert(q =~= p);
            }
        }
    }
}

/// Where the search has passed over nothing and is through with every
/// candidate at position 1, `q` is no Hamiltonian cycle.
pub proof fn lemma_search_exhausted(g: Seq<Seq<bool>>, q: Seq<u16>, p: Seq<u16>, vertex: int)
    requires
        p.len() == g.len(),
        p[0] == 0,
        not_before(q, p, 1, vertex),
        1 < g.len() ==> vertex >= g.len(),
        1 == g.len() ==> !g[p[0] as int][p[0] as int],
    ensures
        !is_hamiltonian_cycle(g, q),
{
    if is_hamiltonian_cycle(g, q) {
        assert(agree_before(q, p, 1));
        if 1 < g.len() {
            assert((q[1] as int) < g.len());
        } else {
            assert(q =~= p);
        }
    }
}

/// A cycle that does not come before the full path `p` agrees with it up to
/// `upto`, or names a larger vertex at the first place where they differ.
pub proof fn lemma_agree_or_smaller(q: Seq<u16>, p: Seq<u16>, upto: int)
    requires
        p.len() == q.len(),
        p.len() >= 1,
        p[0] == q[0],
        0 <= upto <= p.len(),
        not_before(q, p, p.len() as int, 0),
    ensures
        agree_before(q, p, upto) || exists|k: int| smaller_at(p, q, k),
    decreases upto,
{
    if upto > 1 {
        lemma_agree_or_smaller(q, p, upto - 1);
        if agree_before(q, p, upto - 1) {
            assert(q[upto - 1] >= p[upto - 1]);
            if q[upto - 1] != p[upto - 1] {
                assert(smaller_at(p, q, upto - 1));
            }
        }
    }
}

/// A full path that is a Hamiltonian cycle and that the search reached
/// without passing over any other comes first among them.
pub proof fn lemma_search_found(g: Seq<Seq<bool>>, p: Seq<u16>)
    requires
        is_hamiltonian_cycle(g, p),
        nothing_passed_over(g, p, p.len() as int, 1),
    ensures
        is_first_cycle(g, p),
{
    assert forall|q: Seq<u16>| #[trigger] is_hamiltonian_cycle(g, q) implies lex_le(p, q) by {
        assert(not_before(q, p, p.len() as int, 1));
        assert(not_before(q, p, p.len() as int, 0));
        lemma_agree_or_smaller(q, p, p.len() as int);
        if agree_before(q, p, p.len() as int) {
            assert(q =~= p);
        }
    }
}

/// Lexicographic order is antisymmetric on paths of one length.
pub proof fn lemma_lex_le_antisymmetric(p: Seq<u16>, q: Seq<u16>)
    requires
        p.len() == q.len(),
        lex_le(p, q),
        lex_le(q, p),
    ensures
        p == q,
{
    if p != q {
        let a = choose|k: int| smaller_at(p, q, k);
        let b = choose|k: int| smaller_at(q, p, k);
        assert(smaller_at(p, q, a) && smaller_at(q, p, b));
        assert(false);
    }
}

/// A graph has at most one first Hamiltonian cycle.
pub proof fn lemma_first_cycle_unique(g: Seq<Seq<bool>>, p: Seq<u16>, q: Seq<u16>)
    requires
        is_first_cycle(g, p),
        is_first_cycle(g, q),
    ensures
        p == q,
{
    lemma_lex_le_antisymmetric(p, q);
}

/// A Hamiltonian cycle is a permutation of the vertices: it names each of
/// them.
pub proof fn lemma_cycle_visits_every_vertex(g: Seq<Seq<bool>>, p: Seq<u16>, u: int)
    requires
        is_hamiltonian_cycle(g, p),
        0 <= u < g.len(),
    ensures
        on_path(p, p.len() as int, u),
{
    let n = p.len() as int;
    let vals = Seq::new(p.len(), |i: int| p[i] as int);
    assert(vals.no_duplicates()) by {
        assert forall|i: int, j: int|
            0 <= i < vals.len() && 0 <= j < vals.len() && i != j implies vals[i] != vals[j] by {
            if i < j {
                assert(p[i] != p[j]);
            } else {
                assert(p[j] != p[i]);
            }
        }
    }
    vals.unique_seq_to_set();
    vstd::set_lib::lemma_int_range(0, n);
    let range = vstd::set_lib::set_int_range(0, n);
    assert(vals.to_set().subset_of(range)) by {
        assert forall|a: int| vals.to_set().contains(a) implies range.contains(a) by {
            let i = choose|i: int| 0 <= i < vals.len() && vals[i] == a;
            assert((p[i] as int) < g.len());
        }
    }
    vstd::set_lib::lemma_len_subset(vals.to_set(), range);
    vstd::set_lib::lemma_subset_equality(vals.to_set(), range);
    assert(range.contains(u));
    assert(vals.to_set().contains(u));
    let i = choose|i: int| 0 <= i < vals.len() && vals[i] == u;
    assert(p[i] == u);
}

} // verus!
