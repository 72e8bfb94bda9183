//! What holds of every layered schedule, proved over the model of
//! [`crate::precedence`].

use crate::precedence::{
    edge, has_cycle, is_cycle, is_node, is_path, is_schedule, layer, layer_of, nodes, parents_in,
    reachable, ready, retired, scheduled, waits, with_edge, Name, Precedence,
};
use vstd::prelude::*;
use vstd::seq_lib::seq_to_set_is_finite;
use vstd::set_lib::lemma_len_subset;

verus! {

/// Adding an edge adds that edge and no other.
pub proof fn lemma_with_edge(g: Precedence, parent: Name, child: Name, a: Name, b: Name)
    ensures
        edge(with_edge(g, parent, child), a, b) <==> edge(g, a, b) || (a == parent && b == child),
        g.dom().finite() ==> with_edge(g, parent, child).dom().finite(),
{
    let after = with_edge(g, parent, child);
    if g.contains_key(parent) {
        let before = g[parent];
        assert(after[parent] == before.push(child));
        assert(before.push(child)[before.len() as int] == child);
        if a == parent {
            if before.contains(b) {
                let i = choose|i: int| 0 <= i < before.len() && before[i] == b;
                assert(before.push(child)[i] == b);
            }
            if before.push(child).contains(b) && b != child {
                let i = choose|i: int| 0 <= i < before.push(child).len() && before.push(child)[i] == b;
                assert(before[i] == b);
            }
        }
    } else {
        assert(after[parent] == seq![child]);
        assert(seq![child][0] == child);
    }
}

/// Every member of `done` is a node whose parents lie in `done`.
pub open spec fn closed(g: Precedence, done: Set<Name>) -> bool {
    forall|n: Name| #[trigger] done.contains(n) ==> is_node(g, n) && parents_in(g, n, done)
}

/// The retired nodes only grow with the number of layers.
pub proof fn lemma_retired_grows(g: Precedence, i: nat, j: nat)
    requires
        i <= j,
    ensures
        retired(g, i).subset_of(retired(g, j)),
    decreases j,
{
    if i < j {
        lemma_retired_grows(g, i, (j - 1) as nat);
    }
}

/// A retired node has all its parents retired.
pub proof fn lemma_retired_closed(g: Precedence, k: nat)
    ensures
        closed(g, retired(g, k)),
    decreases k,
{
    if k > 0 {
        let prev = retired(g, (k - 1) as nat);
        lemma_retired_closed(g, (k - 1) as nat);
        assert forall|n: Name| #[trigger] retired(g, k).contains(n) implies is_node(g, n)
            && parents_in(g, n, retired(g, k)) by {
            if prev.contains(n) {
                assert(parents_in(g, n, prev));
            } else {
                assert(ready(g, prev).contains(n));
            }
        }
    }
}

/// A node is retired after `k` layers exactly if one of them holds it.
pub proof fn lemma_retired_is_layers(g: Precedence, k: nat, n: Name)
    ensures
        retired(g, k).contains(n) <==> exists|j: nat| j < k && #[trigger] layer(g, j).contains(n),
    decreases k,
{
    if k > 0 {
        let m = (k - 1) as nat;
        lemma_retired_is_layers(g, m, n);
        if retired(g, k).contains(n) {
            if retired(g, m).contains(n) {
                let j = choose|j: nat| j < m && #[trigger] layer(g, j).contains(n);
                assert(j < k && layer(g, j).contains(n));
            } else {
                assert(layer(g, m).contains(n));
            }
        }
        if exists|j: nat| j < k && #[trigger] layer(g, j).contains(n) {
            let j = choose|j: nat| j < k && #[trigger] layer(g, j).contains(n);
            if j < m {
                assert(retired(g, m).contains(n));
            } else {
                assert(layer(g, m).contains(n));
            }
        }
    }
}

/// No node lies in two layers.
pub proof fn lemma_layers_disjoint(g: Precedence, i: nat, j: nat, n: Name)
    requires
        i < j,
        layer(g, i).contains(n),
    ensures
        !layer(g, j).contains(n),
{
    assert(retired(g, i + 1).contains(n));
    lemma_retired_grows(g, i + 1, j);
}

/// No node of a cycle is ever retired.
pub proof fn lemma_cycle_never_retired(g: Precedence, p: Seq<Name>, k: nat, i: int)
    requires
        is_cycle(g, p),
        0 <= i < p.len(),
    ensures
        !retired(g, k).contains(p[i]),
    decreases k,
{
    if k > 0 {
        let m = (k - 1) as nat;
        lemma_cycle_never_retired(g, p, m, i);
        if ready(g, retired(g, m)).contains(p[i]) {
            assert(parents_in(g, p[i], retired(g, m)));
            if i > 0 {
                assert(edge(g, p[i - 1], p[i - 1 + 1]));
                lemma_cycle_never_retired(g, p, m, i - 1);
            } else {
                let before = p.len() - 2;
                assert(edge(g, p[before], p[before + 1]));
                assert(p[before + 1] == p[0]);
                lemma_cycle_never_retired(g, p, m, before);
            }
        }
    }
}

/// One step of retiring a layer: where `done` is closed and `x` is ready,
/// retiring `x` leaves ready what was ready besides `x`, and makes ready
/// the children of `x` that waited for `x` alone.
pub proof fn lemma_retire_step(
    g: Precedence,
    done: Set<Name>,
    x: Name,
    rest: Set<Name>,
    next0: Set<Name>,
    next1: Set<Name>,
)
    requires
        closed(g, done),
        ready(g, done).contains(x),
        !rest.contains(x),
        !next0.contains(x),
        forall|n: Name|
            ready(g, done).contains(n) <==> next0.contains(n) || n == x || rest.contains(n),
        forall|n: Name|
            next1.contains(n) <==> next0.contains(n) || (edge(g, x, n) && !waits(g, n, x, done)),
    ensures
        closed(g, done.insert(x)),
        forall|n: Name|
            ready(g, done.insert(x)).contains(n) <==> next1.contains(n) || rest.contains(n),
{
    let after = done.insert(x);
    assert forall|n: Name| #[trigger] after.contains(n) implies is_node(g, n) && parents_in(
        g,
        n,
        after,
    ) by {
        if n == x {
            assert(parents_in(g, x, done));
        } else {
            assert(done.contains(n));
            assert(parents_in(g, n, done));
        }
    }
    assert forall|n: Name| ready(g, after).contains(n) implies next1.contains(n) || rest.contains(
        n,
    ) by {
        if parents_in(g, n, done) {
            assert(ready(g, done).contains(n));
        } else {
            let p = choose|p: Name| edge(g, p, n) && !done.contains(p);
            assert(after.contains(p));
            if waits(g, n, x, done) {
                let q = choose|q: Name| q != x && !done.contains(q) && edge(g, q, n);
                assert(after.contains(q));
            }
        }
    }
    assert forall|n: Name| next1.contains(n) || rest.contains(n) implies ready(g, after).contains(
        n,
    ) by {
        if rest.contains(n) || next0.contains(n) {
            assert(ready(g, done).contains(n));
            assert(parents_in(g, n, done));
        } else {
            assert(edge(g, x, n) && !waits(g, n, x, done));
            if n == x {
                assert(parents_in(g, x, done));
                assert(done.contains(x));
            }
            if done.contains(n) {
                assert(parents_in(g, n, done));
                assert(done.contains(x));
            }
            assert forall|p: Name| edge(g, p, n) implies after.contains(p) by {
                if p != x && !done.contains(p) {
                    assert(waits(g, n, x, done));
                }
            }
        }
    }
}

/// The children of the keys in `ks`.
spec fn children_of(g: Precedence, ks: Seq<Name>) -> Set<Name>
    decreases ks.len(),
{
    if ks.len() == 0 {
        Set::empty()
    } else {
        children_of(g, ks.drop_last()).union(g[ks.last()].to_set())
    }
}

proof fn lemma_children_of(g: Precedence, ks: Seq<Name>)
    ensures
        children_of(g, ks).finite(),
        forall|i: int, c: Name|
            0 <= i < ks.len() && g[#[trigger] ks[i]].contains(c) ==> #[trigger] children_of(
                g,
                ks,
            ).contains(c),
    decreases ks.len(),
{
    broadcast use seq_to_set_is_finite;

    if ks.len() > 0 {
        lemma_children_of(g, ks.drop_last());
        assert forall|i: int, c: Name|
            0 <= i < ks.len() && g[#[trigger] ks[i]].contains(c) implies #[trigger] children_of(
            g,
            ks,
        ).contains(c) by {
            if i < ks.len() - 1 {
                assert(ks.drop_last()[i] == ks[i]);
            } else {
                assert(g[ks.last()].to_set().contains(c));
            }
        }
    }
}

/// A graph with finitely many keys has finitely many nodes.
pub proof fn lemma_nodes_finite(g: Precedence)
    requires
        g.dom().finite(),
    ensures
        nodes(g).finite(),
{
    broadcast use seq_to_set_is_finite;

    let ks = g.dom().to_seq();
    g.dom().lemma_to_seq_to_set_id();
    lemma_children_of(g, ks);
    let all = ks.to_set().union(children_of(g, ks));
    assert forall|n: Name| nodes(g).contains(n) implies all.contains(n) by {
        if g.contains_key(n) {
            assert(ks.to_set().contains(n));
        } else {
            let a = choose|a: Name| edge(g, a, n);
            assert(ks.to_set().contains(a));
            let i = choose|i: int| 0 <= i < ks.len() && ks[i] == a;
            assert(g[ks[i]].contains(n));
        }
    }
    lemma_len_subset(nodes(g), all);
}

/// A walk backwards from `n` along parents outside `done`, `len` edges
/// long.
spec fn back_walk(g: Precedence, done: Set<Name>, n: Name, len: nat) -> Seq<Name>
    decreases len,
{
    if len == 0 {
        seq![n]
    } else {
        let w = back_walk(g, done, n, (len - 1) as nat);
        let p = choose|p: Name| edge(g, p, w.first()) && !done.contains(p);
        seq![p] + w
    }
}

proof fn lemma_back_walk(g: Precedence, done: Set<Name>, n: Name, len: nat)
    requires
        ready(g, done) =~= Set::<Name>::empty(),
        is_node(g, n),
        !done.contains(n),
    ensures
        back_walk(g, done, n, len).len() == len + 1,
        is_path(g, back_walk(g, done, n, len)),
        forall|i: int|
            0 <= i <= len ==> is_node(g, #[trigger] back_walk(g, done, n, len)[i]) && !done.contains(
                back_walk(g, done, n, len)[i],
            ),
    decreases len,
{
    if len > 0 {
        lemma_back_walk(g, done, n, (len - 1) as nat);
        let w = back_walk(g, done, n, (len - 1) as nat);
        let f = w.first();
        assert(is_node(g, w[0]) && !done.contains(w[0]));
        assert(!ready(g, done).contains(f));
        let p = choose|p: Name| edge(g, p, f) && !done.contains(p);
        let walk = back_walk(g, done, n, len);
        assert(walk == seq![p] + w);
        assert forall|i: int| 0 <= i < walk.len() - 1 implies edge(g, #[trigger] walk[i], walk[i + 1]) by {
            if i > 0 {
                assert(edge(g, w[i - 1], w[i - 1 + 1]));
            }
        }
        assert forall|i: int| 0 <= i <= len implies is_node(g, #[trigger] walk[i]) && !done.contains(
            walk[i],
        ) by {
            if i > 0 {
                assert(walk[i] == w[i - 1]);
            }
        }
    }
}

/// A sequence longer than a finite set that holds all its items repeats
/// one of them.
pub proof fn lemma_pigeonhole(s: Seq<Name>, u: Set<Name>)
    requires
        u.finite(),
        forall|i: int| 0 <= i < s.len() ==> u.contains(#[trigger] s[i]),
        s.len() > u.len(),
    ensures
        !s.no_duplicates(),
{
    if s.no_duplicates() {
        s.unique_seq_to_set();
        assert(s.to_set().subset_of(u));
        lemma_len_subset(s.to_set(), u);
    }
}

/// Where nothing is ready and a node is left outside `done`, the graph
/// holds a cycle.
pub proof fn lemma_stuck_has_cycle(g: Precedence, done: Set<Name>, n: Name)
    requires
        g.dom().finite(),
        ready(g, done) =~= Set::<Name>::empty(),
        is_node(g, n),
        !done.contains(n),
    ensures
        has_cycle(g),
{
    lemma_nodes_finite(g);
    let len = nodes(g).len();
    let w = back_walk(g, done, n, len);
    lemma_back_walk(g, done, n, len);
    lemma_pigeonhole(w, nodes(g));
    let (i, j) = choose|i: int, j: int|
        0 <= i < w.len() && 0 <= j < w.len() && i != j && w[i] == w[j];
    let (lo, hi) = if i < j {
        (i, j)
    } else {
        (j, i)
    };
    let c = w.subrange(lo, hi + 1);
    assert forall|x: int| 0 <= x < c.len() - 1 implies edge(g, #[trigger] c[x], c[x + 1]) by {
        assert(edge(g, w[lo + x], w[lo + x + 1]));
    }
    assert(is_cycle(g, c));
}

/// In a schedule of a graph without a cycle a node occurs exactly if it
/// is a node of the graph.
pub proof fn lemma_scheduled_is_node(g: Precedence, s: Seq<Seq<Name>>, n: Name)
    requires
        g.dom().finite(),
        !has_cycle(g),
        is_schedule(g, s),
    ensures
        scheduled(s, n) <==> is_node(g, n),
{
    if scheduled(s, n) {
        let k = choose|k: int| 0 <= k < s.len() && (#[trigger] s[k]).contains(n);
        assert(s[k].to_set().contains(n));
    }
    if is_node(g, n) {
        if !retired(g, s.len()).contains(n) {
            lemma_stuck_has_cycle(g, retired(g, s.len()), n);
        }
        lemma_retired_is_layers(g, s.len(), n);
        let j = choose|j: nat| j < s.len() && #[trigger] layer(g, j).contains(n);
        assert(s[j as int].to_set().contains(n));
    }
}

/// Topological correctness: in a schedule of a graph without a cycle,
/// both ends of an edge are scheduled, each in one layer only, and the
/// parent's layer comes strictly before the child's.
pub proof fn schedule_respects_edges(g: Precedence, s: Seq<Seq<Name>>, a: Name, b: Name)
    requires
        g.dom().finite(),
        !has_cycle(g),
        is_schedule(g, s),
        edge(g, a, b),
    ensures
        scheduled(s, a),
        scheduled(s, b),
        forall|i: int, j: int|
            0 <= i < s.len() && 0 <= j < s.len() && (#[trigger] s[i]).contains(a) && (
            #[trigger] s[j]).contains(b) ==> i < j,
        layer_of(s, a) < layer_of(s, b),
{
    lemma_scheduled_is_node(g, s, a);
    lemma_scheduled_is_node(g, s, b);
    assert forall|i: int, j: int|
        0 <= i < s.len() && 0 <= j < s.len() && (#[trigger] s[i]).contains(a) && (
        #[trigger] s[j]).contains(b) implies i < j by {
        assert(s[i].to_set().contains(a));
        assert(s[j].to_set().contains(b));
        assert(parents_in(g, b, retired(g, j as nat)));
        assert(retired(g, j as nat).contains(a));
        lemma_retired_is_layers(g, j as nat, a);
        let k = choose|k: nat| k < j && #[trigger] layer(g, k).contains(a);
        if k < i {
            lemma_layers_disjoint(g, k, i as nat, a);
        }
    }
    let i = layer_of(s, a);
    let j = layer_of(s, b);
    assert(0 <= i < s.len() && s[i].contains(a));
    assert(0 <= j < s.len() && s[j].contains(b));
}

/// Completeness: a schedule of a graph without a cycle holds exactly the
/// keys of the graph and what can be reached from them.
pub proof fn schedule_is_complete(g: Precedence, s: Seq<Seq<Name>>, n: Name)
    requires
        g.dom().finite(),
        !has_cycle(g),
        is_schedule(g, s),
    ensures
        scheduled(s, n) <==> reachable(g, n),
{
    lemma_scheduled_is_node(g, s, n);
    if is_node(g, n) {
        if g.contains_key(n) {
            let p = seq![n];
            assert(is_path(g, p) && g.contains_key(p.first()) && p.last() == n);
        } else {
            let a = choose|a: Name| edge(g, a, n);
            let p = seq![a, n];
            assert(is_path(g, p) && g.contains_key(p.first()) && p.last() == n);
        }
    }
    if reachable(g, n) {
        let p = choose|p: Seq<Name>| is_path(g, p) && g.contains_key(p.first()) && p.last() == n;
        if p.len() > 1 {
            let before = p.len() - 2;
            assert(edge(g, p[before], p[before + 1]));
        }
    }
}

/// Idempotence: two schedules of one graph have the same number of
/// layers, and layer by layer the same nodes.
pub proof fn schedules_agree(g: Precedence, s1: Seq<Seq<Name>>, s2: Seq<Seq<Name>>)
    requires
        is_schedule(g, s1),
        is_schedule(g, s2),
    ensures
        s1.len() == s2.len(),
        forall|k: int| 0 <= k < s1.len() ==> (#[trigger] s1[k]).to_set() == s2[k].to_set(),
{
    if s1.len() < s2.len() {
        let k = s1.len() as int;
        assert(s2[k].to_set().contains(s2[k][0]));
    }
    if s2.len() < s1.len() {
        let k = s2.len() as int;
        assert(s1[k].to_set().contains(s1[k][0]));
    }
}

/// Two graphs have the same keys and the same edges.
pub open spec fn same_edges(g1: Precedence, g2: Precedence) -> bool {
    &&& g1.dom() == g2.dom()
    &&& forall|a: Name, b: Name| edge(g1, a, b) == edge(g2, a, b)
}

proof fn lemma_same_ready(g1: Precedence, g2: Precedence, done: Set<Name>)
    requires
        same_edges(g1, g2),
    ensures
        ready(g1, done) == ready(g2, done),
{
    assert forall|n: Name| ready(g1, done).contains(n) == ready(g2, done).contains(n) by {
        lemma_same_node(g1, g2, n);
        lemma_same_node(g2, g1, n);
        assert(parents_in(g1, n, done) == parents_in(g2, n, done));
    }
    assert(ready(g1, done) =~= ready(g2, done));
}

proof fn lemma_same_node(g1: Precedence, g2: Precedence, n: Name)
    requires
        same_edges(g1, g2),
    ensures
        is_node(g1, n) ==> is_node(g2, n),
{
    if is_node(g1, n) && !g1.contains_key(n) {
        let a = choose|a: Name| edge(g1, a, n);
        assert(edge(g2, a, n));
    }
}

proof fn lemma_same_retired(g1: Precedence, g2: Precedence, k: nat)
    requires
        same_edges(g1, g2),
    ensures
        retired(g1, k) == retired(g2, k),
    decreases k,
{
    if k > 0 {
        lemma_same_retired(g1, g2, (k - 1) as nat);
        lemma_same_ready(g1, g2, retired(g1, (k - 1) as nat));
    }
}

proof fn lemma_same_cycle(g1: Precedence, g2: Precedence)
    requires
        same_edges(g1, g2),
    ensures
        has_cycle(g1) ==> has_cycle(g2),
{
    if has_cycle(g1) {
        let p = choose|p: Seq<Name>| is_cycle(g1, p);
        assert forall|i: int| 0 <= i < p.len() - 1 implies edge(g2, #[trigger] p[i], p[i + 1]) by {
            assert(edge(g1, p[i], p[i + 1]));
        }
        assert(is_cycle(g2, p));
    }
}

/// The schedule depends on the keys and the edges of a graph only, not on
/// the order of the children of a node, nor on how often an edge was
/// added.
pub proof fn schedule_depends_on_edges(g1: Precedence, g2: Precedence, s: Seq<Seq<Name>>)
    requires
        same_edges(g1, g2),
    ensures
        has_cycle(g1) == has_cycle(g2),
        is_schedule(g1, s) == is_schedule(g2, s),
        forall|k: nat| layer(g1, k) == layer(g2, k),
{
    lemma_same_cycle(g1, g2);
    lemma_same_cycle(g2, g1);
    assert forall|k: nat| layer(g1, k) == layer(g2, k) by {
        lemma_same_retired(g1, g2, k);
        lemma_same_ready(g1, g2, retired(g1, k));
    }
    assert(is_schedule(g1, s) == is_schedule(g2, s)) by {
        assert(layer(g1, s.len()) == layer(g2, s.len()));
        assert forall|k: int| 0 <= k < s.len() implies (#[trigger] s[k]).to_set() == layer(
            g1,
            k as nat,
        ) <==> s[k].to_set() == layer(g2, k as nat) by {
            assert(layer(g1, k as nat) == layer(g2, k as nat));
        }
    }
}

/// An edge that is added a second time changes neither the schedule nor
/// whether the graph holds a cycle.
pub proof fn duplicate_edge_is_idempotent(g: Precedence, a: Name, b: Name, s: Seq<Seq<Name>>)
    requires
        edge(g, a, b),
    ensures
        has_cycle(with_edge(g, a, b)) == has_cycle(g),
        is_schedule(with_edge(g, a, b), s) == is_schedule(g, s),
{
    let again = with_edge(g, a, b);
    assert(again.dom() =~= g.dom());
    assert forall|x: Name, y: Name| edge(again, x, y) == edge(g, x, y) by {
        lemma_with_edge(g, a, b, x, y);
    }
    schedule_depends_on_edges(again, g, s);
}

} // verus!
