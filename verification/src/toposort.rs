//! A precedence graph over image names and its layered schedule.

use crate::precedence::{
    edge, empty_graph, has_cycle, is_cycle, is_schedule, layer, nodes, parents_in, ready,
    retired, waits, with_edge, Name, Precedence,
};
use crate::schedule_laws::{
    closed, lemma_cycle_never_retired, lemma_nodes_finite, lemma_retire_step,
    lemma_retired_closed, lemma_stuck_has_cycle,
};
use crate::names::holds;
use multimap::MultiMap;
use vstd::prelude::*;
use vstd::seq_lib::seq_to_set_is_finite;
use vstd::set_lib::lemma_len_subset;

verus! {

/// Trusted: the type `multimap::MultiMap`, carried as an opaque value.
#[verifier::external_type_specification]
#[verifier::external_body]
#[verifier::reject_recursive_types(K)]
#[verifier::reject_recursive_types(V)]
#[verifier::reject_recursive_types(S)]
pub struct ExMultiMap<K, V, S>(MultiMap<K, V, S>);

/// Trusted: what a multimap holds, for each key the values inserted under
/// it, in insertion order. The functions below say how the methods of
/// `MultiMap` read and change it.
pub uninterp spec fn multimap_entries(m: MultiMap<String, String>) -> Map<Seq<char>, Seq<Seq<char>>>;

/// Trusted: calls `MultiMap::new`. Claims that the new multimap has no
/// key.
#[verifier::external_body]
fn multimap_new() -> (m: MultiMap<String, String>)
    ensures
        multimap_entries(m) == empty_graph(),
{
    MultiMap::new()
}

/// Trusted: calls `MultiMap::insert`. Claims that the value is pushed
/// behind those already held under the key, that an absent key starts
/// with the value alone, and that every other key keeps its values.
#[verifier::external_body]
fn multimap_insert(m: &mut MultiMap<String, String>, k: String, v: String)
    ensures
        multimap_entries(*final(m)) == with_edge(multimap_entries(*old(m)), k@, v@),
{
    m.insert(k, v)
}

/// Trusted: calls `MultiMap::get_vec`. Claims that it gives the values
/// held under the key, and nothing exactly where the key is absent.
#[verifier::external_body]
fn multimap_get_vec<'a>(m: &'a MultiMap<String, String>, k: &String) -> (r: Option<&'a Vec<String>>)
    ensures
        r is Some <==> multimap_entries(*m).contains_key(k@),
        r matches Some(v) ==> v.deep_view() == multimap_entries(*m)[k@],
{
    m.get_vec(k)
}

/// Trusted: calls `MultiMap::keys` and collects what it yields. Claims
/// that every key comes once; nothing is claimed of their order.
#[verifier::external_body]
fn multimap_keys<'a>(m: &'a MultiMap<String, String>) -> (r: Vec<&'a String>)
    ensures
        r.deep_view().no_duplicates(),
        r.deep_view().to_set() == multimap_entries(*m).dom(),
{
    m.keys().collect()
}

/// A precedence graph over image names.
#[derive(Debug)]
pub struct Dag {
    precedence: MultiMap<String, String>,
}

impl View for Dag {
    type V = Precedence;

    closed spec fn view(&self) -> Precedence {
        multimap_entries(self.precedence)
    }
}

/// A layered order of the nodes of a graph.
pub trait Toposort<Node> {
    /// The layers in the order in which they can run, or `None` where the
    /// graph holds a cycle.
    fn toposort(&self) -> Option<Vec<Vec<Node>>>;
}

impl Dag {
    /// A graph without nodes.
    pub fn new() -> (dag: Dag)
        ensures
            dag@ == empty_graph(),
    {
        Dag { precedence: multimap_new() }
    }

    /// Adds the edge `first -> second`: `first` must complete before
    /// `second`.
    pub fn before(&mut self, first: String, second: String)
        ensures
            final(self)@ == with_edge(old(self)@, first@, second@),
    {
        multimap_insert(&mut self.precedence, first, second)
    }

    /// Some edge leads to `node`.
    fn has_parent(&self, node: &String) -> (b: bool)
        ensures
            b == !parents_in(self@, node@, Set::<Name>::empty()),
    {
        let keys = multimap_keys(&self.precedence);
        let mut i: usize = 0;
        while i < keys.len()
            invariant
                i <= keys.len(),
                keys.deep_view().to_set() == self@.dom(),
                forall|j: int| 0 <= j < i ==> !edge(self@, keys.deep_view()[j], node@),
            decreases keys.len() - i,
        {
            let children = multimap_get_vec(&self.precedence, keys[i]);
            assert(keys.deep_view()[i as int] == keys[i as int]@);
            if let Some(children) = children {
                if holds(children, node) {
                    assert(edge(self@, keys[i as int]@, node@));
                    assert(!Set::<Name>::empty().contains(keys[i as int]@));
                    return true;
                }
            }
            i += 1;
        }
        assert forall|p: Name| !edge(self@, p, node@) by {
            if self@.contains_key(p) {
                assert(keys.deep_view().to_set().contains(p));
            }
        }
        false
    }

    /// Some edge leads to `node` from a node that is neither `except` nor
    /// among `removed`.
    fn has_parents_except(&self, node: &String, except: &String, removed: &Vec<String>) -> (b:
        bool)
        ensures
            b == waits(self@, node@, except@, removed.deep_view().to_set()),
    {
        let keys = multimap_keys(&self.precedence);
        let ghost done = removed.deep_view().to_set();
        let mut i: usize = 0;
        while i < keys.len()
            invariant
                i <= keys.len(),
                done == removed.deep_view().to_set(),
                keys.deep_view().to_set() == self@.dom(),
                forall|j: int|
                    0 <= j < i ==> !(keys.deep_view()[j] != except@ && !done.contains(
                        keys.deep_view()[j],
                    ) && edge(self@, keys.deep_view()[j], node@)),
            decreases keys.len() - i,
        {
            let parent = keys[i];
            assert(keys.deep_view()[i as int] == parent@);
            if *parent != *except && !holds(removed, parent) {
                if let Some(children) = multimap_get_vec(&self.precedence, parent) {
                    if holds(children, node) {
                        assert(parent@ != except@ && !done.contains(parent@) && edge(
                            self@,
                            parent@,
                            node@,
                        ));
                        return true;
                    }
                }
            }
            i += 1;
        }
        assert forall|p: Name| !(p != except@ && !done.contains(p) && edge(self@, p, node@)) by {
            if self@.contains_key(p) {
                assert(keys.deep_view().to_set().contains(p));
            }
        }
        false
    }

    /// The keys to which no edge leads: the first layer.
    fn orphans(&self) -> (r: Vec<String>)
        ensures
            r.deep_view().no_duplicates(),
            r.deep_view().to_set() == ready(self@, Set::<Name>::empty()),
    {
        let keys = multimap_keys(&self.precedence);
        let ghost none = Set::<Name>::empty();
        let mut no_incoming_edge: Vec<String> = Vec::new();
        let mut i: usize = 0;
        while i < keys.len()
            invariant
                i <= keys.len(),
                none == Set::<Name>::empty(),
                keys.deep_view().no_duplicates(),
                keys.deep_view().to_set() == self@.dom(),
                no_incoming_edge.deep_view().no_duplicates(),
                forall|k: int|
                    0 <= k < no_incoming_edge.len() ==> parents_in(
                        self@,
                        #[trigger] no_incoming_edge.deep_view()[k],
                        none,
                    ) && exists|j: int|
                        0 <= j < i && #[trigger] keys.deep_view()[j]
                            == no_incoming_edge.deep_view()[k],
                forall|j: int|
                    0 <= j < i && parents_in(self@, #[trigger] keys.deep_view()[j], none)
                        ==> no_incoming_edge.deep_view().contains(keys.deep_view()[j]),
            decreases keys.len() - i,
        {
            let node = keys[i];
            assert(keys.deep_view()[i as int] == node@);
            if !self.has_parent(node) {
                let ghost before = no_incoming_edge.deep_view();
                no_incoming_edge.push(node.clone());
                assert(no_incoming_edge.deep_view() =~= before.push(node@));
                assert forall|k: int| 0 <= k < before.len() implies before[k] != node@ by {
                    let j = choose|j: int| 0 <= j < i && #[trigger] keys.deep_view()[j] == before[k];
                }
                assert forall|j: int|
                    0 <= j < i + 1 && parents_in(
                        self@,
                        #[trigger] keys.deep_view()[j],
                        none,
                    ) implies no_incoming_edge.deep_view().contains(keys.deep_view()[j]) by {
                    if j < i {
                        let k = choose|k: int|
                            0 <= k < before.len() && before[k] == keys.deep_view()[j];
                        assert(no_incoming_edge.deep_view()[k] == keys.deep_view()[j]);
                    } else {
                        assert(no_incoming_edge.deep_view()[before.len() as int] == node@);
                    }
                }
            }
            i += 1;
        }
        let ghost found = no_incoming_edge.deep_view();
        assert forall|n: Name| found.to_set().contains(n) == ready(self@, none).contains(n) by {
            if ready(self@, none).contains(n) {
                if !self@.contains_key(n) {
                    let a = choose|a: Name| edge(self@, a, n);
                    assert(none.contains(a));
                }
                assert(keys.deep_view().to_set().contains(n));
                let j = choose|j: int| 0 <= j < keys.len() && keys.deep_view()[j] == n;
                assert(parents_in(self@, keys.deep_view()[j], none));
            }
            if found.contains(n) {
                let k = choose|k: int| 0 <= k < found.len() && found[k] == n;
                assert(parents_in(self@, found[k], none));
                let j = choose|j: int| 0 <= j < i && #[trigger] keys.deep_view()[j] == found[k];
                assert(keys.deep_view().to_set().contains(n));
            }
        }
        assert(found.to_set() =~= ready(self@, none));
        no_incoming_edge
    }

    /// Retires the nodes of `frontier` one by one and collects the nodes
    /// that become ready on the way: the next layer.
    fn retire_layer(&self, frontier: &Vec<String>, removed: &mut Vec<String>) -> (next: Vec<
        String,
    >)
        requires
            closed(self@, old(removed).deep_view().to_set()),
            old(removed).deep_view().no_duplicates(),
            frontier.deep_view().no_duplicates(),
            frontier.deep_view().to_set() == ready(self@, old(removed).deep_view().to_set()),
        ensures
            final(removed).deep_view() == old(removed).deep_view() + frontier.deep_view(),
            final(removed).deep_view().no_duplicates(),
            closed(self@, final(removed).deep_view().to_set()),
            next.deep_view().no_duplicates(),
            next.deep_view().to_set() == ready(self@, final(removed).deep_view().to_set()),
    {
        let ghost g = self@;
        let ghost d0 = removed.deep_view();
        let ghost f = frontier.deep_view();
        let mut next: Vec<String> = Vec::new();
        let mut i: usize = 0;
        assert(removed.deep_view() =~= d0 + f.take(0));
        assert(f.skip(0) =~= f);
        assert forall|n: Name|
            #![trigger ready(g, removed.deep_view().to_set()).contains(n)]
            #![trigger next.deep_view().contains(n)]
            #![trigger f.skip(0).contains(n)]
            ready(g, removed.deep_view().to_set()).contains(n) <==> next.deep_view().contains(n)
                || f.skip(0).contains(n) by {
            assert(f.to_set().contains(n) == f.contains(n));
        }
        while i < frontier.len()
            invariant
                i <= frontier.len(),
                g == self@,
                f == frontier.deep_view(),
                f.no_duplicates(),
                f.to_set() == ready(g, d0.to_set()),
                removed.deep_view() == d0 + f.take(i as int),
                removed.deep_view().no_duplicates(),
                closed(g, removed.deep_view().to_set()),
                next.deep_view().no_duplicates(),
                forall|n: Name| next.deep_view().contains(n) ==> !f.contains(n),
                forall|n: Name|
                    #![trigger ready(g, removed.deep_view().to_set()).contains(n)]
                    #![trigger next.deep_view().contains(n)]
                    #![trigger f.skip(i as int).contains(n)]
                    ready(g, removed.deep_view().to_set()).contains(n) <==> next.deep_view().contains(
                        n,
                    ) || f.skip(i as int).contains(n),
            decreases frontier.len() - i,
        {
            let node = &frontier[i];
            let ghost x = node@;
            let ghost d = removed.deep_view();
            let ghost next0 = next.deep_view();
            assert(f[i as int] == x);
            assert(f.skip(i as int)[0] == x);
            assert(f.skip(i as int).contains(x));
            assert(ready(g, d.to_set()).contains(x));
            if let Some(children) = multimap_get_vec(&self.precedence, node) {
                let mut j: usize = 0;
                while j < children.len()
                    invariant
                        j <= children.len(),
                        g == self@,
                        g.contains_key(x),
                        children.deep_view() == g[x],
                        node@ == x,
                        removed.deep_view() == d,
                        next.deep_view().no_duplicates(),
                        forall|n: Name| next0.contains(n) ==> next.deep_view().contains(n),
                        forall|n: Name|
                            next.deep_view().contains(n) ==> next0.contains(n) || (edge(g, x, n)
                                && !waits(g, n, x, d.to_set())),
                        forall|k: int|
                            0 <= k < j && !waits(g, #[trigger] g[x][k], x, d.to_set())
                                ==> next.deep_view().contains(g[x][k]),
                    decreases children.len() - j,
                {
                    let child = &children[j];
                    assert(children.deep_view()[j as int] == child@);
                    if !self.has_parents_except(child, node, removed) && !holds(&next, child) {
                        let ghost before = next.deep_view();
                        next.push(child.clone());
                        assert(next.deep_view() =~= before.push(child@));
                        assert(next.deep_view()[before.len() as int] == child@);
                        assert forall|n: Name| before.contains(n) implies next.deep_view().contains(
                            n,
                        ) by {
                            let k = choose|k: int| 0 <= k < before.len() && before[k] == n;
                            assert(next.deep_view()[k] == n);
                        }
                    }
                    j += 1;
                }
            }
            let ghost next1 = next.deep_view();
            removed.push(node.clone());
            i += 1;
            proof {
                let rest = f.skip(i as int);
                assert(removed.deep_view() =~= d.push(x));
                assert(d.push(x) =~= d0 + f.take(i as int));
                assert(d.push(x).to_set() =~= d.to_set().insert(x)) by {
                    assert forall|n: Name| d.push(x).to_set().contains(n) == d.to_set().insert(
                        x,
                    ).contains(n) by {
                        if d.push(x).contains(n) {
                            let k = choose|k: int| 0 <= k < d.push(x).len() && d.push(x)[k] == n;
                            if k < d.len() {
                                assert(d[k] == n);
                            }
                        }
                        if d.contains(n) {
                            let k = choose|k: int| 0 <= k < d.len() && d[k] == n;
                            assert(d.push(x)[k] == n);
                        }
                        assert(d.push(x)[d.len() as int] == x);
                    }
                }
                let cur = f.skip(i - 1);
                assert forall|n: Name| cur.contains(n) <==> n == x || rest.contains(n) by {
                    if cur.contains(n) {
                        let k = choose|k: int| 0 <= k < cur.len() && cur[k] == n;
                        if k > 0 {
                            assert(rest[k - 1] == n);
                        }
                    }
                    if rest.contains(n) {
                        let k = choose|k: int| 0 <= k < rest.len() && rest[k] == n;
                        assert(cur[k + 1] == n);
                    }
                    assert(cur[0] == x);
                }
                assert(!rest.contains(x)) by {
                    if rest.contains(x) {
                        let k = choose|k: int| 0 <= k < rest.len() && rest[k] == x;
                        assert(f[i + k] == f[i - 1]);
                    }
                }
                assert(f.contains(x));
                assert forall|n: Name|
                    next1.to_set().contains(n) <==> next0.to_set().contains(n) || (edge(g, x, n)
                        && !waits(g, n, x, d.to_set())) by {
                    if edge(g, x, n) && !waits(g, n, x, d.to_set()) {
                        let k = choose|k: int| 0 <= k < g[x].len() && g[x][k] == n;
                        assert(!waits(g, g[x][k], x, d.to_set()));
                    }
                }
                assert forall|n: Name|
                    ready(g, d.to_set()).contains(n) <==> next0.to_set().contains(n) || n == x
                        || rest.to_set().contains(n) by {
                    assert(ready(g, d.to_set()).contains(n) <==> next0.contains(n) || cur.contains(
                        n,
                    ));
                }
                lemma_retire_step(g, d.to_set(), x, rest.to_set(), next0.to_set(), next1.to_set());
                assert(removed.deep_view().to_set() == d.to_set().insert(x));
                assert forall|n: Name|
                    ready(g, removed.deep_view().to_set()).contains(n) <==> next1.contains(n)
                        || rest.contains(n) by {
                    assert(ready(g, d.to_set().insert(x)).contains(n) <==> next1.to_set().contains(
                        n,
                    ) || rest.to_set().contains(n));
                }
                assert forall|n: Name| next1.contains(n) implies !f.contains(n) by {
                    if !next0.contains(n) && f.contains(n) {
                        assert(f.to_set().contains(n));
                        assert(f.to_set().contains(x));
                        assert(parents_in(g, n, d0.to_set()));
                        assert(edge(g, x, n));
                    }
                }
                assert(!d.contains(x));
            }
        }
        assert(f.take(i as int) =~= f);
        assert(next.deep_view().to_set() =~= ready(g, removed.deep_view().to_set())) by {
            assert(f.skip(i as int).len() == 0);
        }
        next
    }
}

impl Toposort<String> for Dag {
    /// The layered schedule of the graph, or `None` exactly where the graph
    /// holds a cycle. The order inside a layer is not fixed.
    fn toposort(&self) -> (r: Option<Vec<Vec<String>>>)
        ensures
            self@.dom().finite(),
            r is None <==> has_cycle(self@),
            r matches Some(order) ==> is_schedule(self@, order.deep_view()),
    {
        let ghost g = self@;
        let keys = multimap_keys(&self.precedence);
        proof {
            seq_to_set_is_finite(keys.deep_view());
            lemma_nodes_finite(g);
        }
        let mut order: Vec<Vec<String>> = Vec::new();
        let mut removed: Vec<String> = Vec::new();
        let mut frontier = self.orphans();
        assert(removed.deep_view().to_set() =~= retired(g, 0));
        while frontier.len() > 0
            invariant
                g == self@,
                g.dom().finite(),
                nodes(g).finite(),
                removed.deep_view().no_duplicates(),
                removed.deep_view().to_set() == retired(g, order.len() as nat),
                frontier.deep_view().no_duplicates(),
                frontier.deep_view().to_set() == layer(g, order.len() as nat),
                forall|k: int|
                    0 <= k < order.len() ==> (#[trigger] order.deep_view()[k]).len() > 0
                        && order.deep_view()[k].no_duplicates() && order.deep_view()[k].to_set()
                        == layer(g, k as nat),
            decreases nodes(g).len() - removed.len(),
        {
            let ghost k = order.len() as nat;
            let ghost d = removed.deep_view();
            let ghost f = frontier.deep_view();
            let ghost layers = order.deep_view();
            proof {
                lemma_retired_closed(g, k);
            }
            let next = self.retire_layer(&frontier, &mut removed);
            order.push(frontier);
            frontier = next;
            proof {
                let after = removed.deep_view();
                assert(after.to_set() =~= retired(g, k + 1)) by {
                    assert forall|n: Name| after.to_set().contains(n) == retired(
                        g,
                        k + 1,
                    ).contains(n) by {
                        if after.contains(n) {
                            let x = choose|x: int| 0 <= x < after.len() && after[x] == n;
                            if x < d.len() {
                                assert(d[x] == n);
                                assert(d.to_set().contains(n));
                            } else {
                                assert(f[x - d.len()] == n);
                                assert(f.to_set().contains(n));
                            }
                        }
                        if d.contains(n) {
                            let x = choose|x: int| 0 <= x < d.len() && d[x] == n;
                            assert(after[x] == n);
                        }
                        if f.contains(n) {
                            let x = choose|x: int| 0 <= x < f.len() && f[x] == n;
                            assert(after[d.len() + x] == n);
                        }
                        assert(d.to_set().contains(n) == d.contains(n));
                        assert(f.to_set().contains(n) == f.contains(n));
                    }
                }
                assert(order.deep_view() =~= layers.push(f));
                after.unique_seq_to_set();
                assert(after.to_set().subset_of(nodes(g)));
                lemma_len_subset(after.to_set(), nodes(g));
            }
        }
        let ghost depth = order.len() as nat;
        let ghost done = retired(g, depth);
        assert(ready(g, done) =~= Set::<Name>::empty()) by {
            assert(frontier.deep_view().len() == 0);
        }
        let mut i: usize = 0;
        while i < keys.len()
            invariant
                i <= keys.len(),
                g == self@,
                g.dom().finite(),
                done == retired(g, depth),
                done == removed.deep_view().to_set(),
                ready(g, done) =~= Set::<Name>::empty(),
                keys.deep_view().to_set() == g.dom(),
                forall|j: int| 0 <= j < i ==> done.contains(#[trigger] keys.deep_view()[j]),
            decreases keys.len() - i,
        {
            assert(keys.deep_view()[i as int] == keys[i as int]@);
            if !holds(&removed, keys[i]) {
                proof {
                    let n = keys[i as int]@;
                    assert(keys.deep_view().to_set().contains(n));
                    lemma_stuck_has_cycle(g, done, n);
                }
                return None;
            }
            i += 1;
        }
        proof {
            if has_cycle(g) {
                let p = choose|p: Seq<Name>| is_cycle(g, p);
                assert(edge(g, p[0int], p[0int + 1]));
                assert(keys.deep_view().to_set().contains(p[0]));
                lemma_cycle_never_retired(g, p, depth, 0int);
            }
        }
        Some(order)
    }
}

} // verus!
