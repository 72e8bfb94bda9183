//! The mathematical model of a precedence graph and of its layered
//! schedule.
//!
//! A graph is a map from a node to the sequence of its immediate children.
//! An edge `a -> b` says that `a` must complete before `b`.

use vstd::prelude::*;

verus! {

/// An image name, as a value of the model.
pub type Name = Seq<char>;

/// A precedence graph: each key with its children, in insertion order.
pub type Precedence = Map<Seq<char>, Seq<Seq<char>>>;

/// The graph without a key.
pub open spec fn empty_graph() -> Precedence {
    Map::empty()
}

/// The graph `g` with `child` added behind the children of `parent`.
pub open spec fn with_edge(g: Precedence, parent: Name, child: Name) -> Precedence {
    g.insert(
        parent,
        if g.contains_key(parent) {
            g[parent].push(child)
        } else {
            seq![child]
        },
    )
}

/// `a -> b` is an edge of the graph.
pub open spec fn edge(g: Precedence, a: Name, b: Name) -> bool {
    g.contains_key(a) && g[a].contains(b)
}

/// `n` is a key of the graph or a child of one.
pub open spec fn is_node(g: Precedence, n: Name) -> bool {
    g.contains_key(n) || exists|a: Name| edge(g, a, n)
}

/// All nodes of the graph.
pub open spec fn nodes(g: Precedence) -> Set<Name> {
    Set::new(|n: Name| is_node(g, n))
}

/// Every parent of `n` lies in `done`.
pub open spec fn parents_in(g: Precedence, n: Name, done: Set<Name>) -> bool {
    forall|p: Name| #![trigger edge(g, p, n)] #![trigger done.contains(p)] edge(g, p, n) ==> done.contains(p)
}

/// The nodes that can be scheduled next once `done` has completed: those
/// outside `done` whose parents all lie in it.
pub open spec fn ready(g: Precedence, done: Set<Name>) -> Set<Name> {
    Set::new(|n: Name| is_node(g, n) && !done.contains(n) && parents_in(g, n, done))
}

/// `n` still waits for a parent other than `except` that is outside
/// `done`.
pub open spec fn waits(g: Precedence, n: Name, except: Name, done: Set<Name>) -> bool {
    exists|p: Name| p != except && !done.contains(p) && edge(g, p, n)
}

/// The nodes of the first `k` layers.
pub open spec fn retired(g: Precedence, k: nat) -> Set<Name>
    decreases k,
{
    if k == 0 {
        Set::empty()
    } else {
        retired(g, (k - 1) as nat).union(ready(g, retired(g, (k - 1) as nat)))
    }
}

/// Layer `k` of the schedule: layer 0 holds the nodes without a parent,
/// layer `k + 1` the nodes whose last parent lies in layer `k`.
pub open spec fn layer(g: Precedence, k: nat) -> Set<Name> {
    ready(g, retired(g, k))
}

/// `p` is a walk along edges of the graph.
pub open spec fn is_path(g: Precedence, p: Seq<Name>) -> bool {
    p.len() >= 1 && forall|i: int| 0 <= i < p.len() - 1 ==> edge(g, #[trigger] p[i], p[i + 1])
}

/// `p` is a walk of at least one edge that ends where it starts.
pub open spec fn is_cycle(g: Precedence, p: Seq<Name>) -> bool {
    is_path(g, p) && p.len() >= 2 && p.first() == p.last()
}

/// The graph holds a cycle; a self-loop is one.
pub open spec fn has_cycle(g: Precedence) -> bool {
    exists|p: Seq<Name>| is_cycle(g, p)
}

/// `s` is the layered schedule of `g`, up to the order inside a layer:
/// its layers are exactly the non-empty layers of the graph, each node
/// once.
pub open spec fn is_schedule(g: Precedence, s: Seq<Seq<Name>>) -> bool {
    &&& forall|k: int|
        0 <= k < s.len() ==> (#[trigger] s[k]).len() > 0 && s[k].no_duplicates() && s[k].to_set()
            == layer(g, k as nat)
    &&& layer(g, s.len()) == Set::<Name>::empty()
}

/// `n` occurs in some layer of `s`.
pub open spec fn scheduled(s: Seq<Seq<Name>>, n: Name) -> bool {
    exists|k: int| 0 <= k < s.len() && (#[trigger] s[k]).contains(n)
}

/// The index of a layer of `s` that holds `n`.
pub open spec fn layer_of(s: Seq<Seq<Name>>, n: Name) -> int {
    choose|k: int| 0 <= k < s.len() && (#[trigger] s[k]).contains(n)
}

/// `n` is a key, or can be reached from a key along edges.
pub open spec fn reachable(g: Precedence, n: Name) -> bool {
    exists|p: Seq<Name>| is_path(g, p) && g.contains_key(p.first()) && p.last() == n
}

} // verus!
