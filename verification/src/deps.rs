//! The declared dependency tree and the precedence graph it stands for.

use crate::precedence::{
    edge, empty_graph, has_cycle, is_schedule, layer_of, scheduled, with_edge, Name, Precedence,
};
use crate::schedule_laws::{lemma_with_edge, schedule_respects_edges};
use crate::toposort::Dag;
use vstd::prelude::*;

verus! {

/// A node of the dependency tree: a name and the nodes nested in it. Each
/// nested node depends on the node that holds it.
#[derive(Debug)]
pub struct DependencyNode {
    pub name: String,
    pub children: Vec<DependencyNode>,
}

/// The graph `g` with the edges declared below `node` added: for each
/// nested node, in order, the edge from `node` to it, then the edges
/// declared below it.
pub open spec fn tree_edges(node: DependencyNode, g: Precedence) -> Precedence
    decreases node, 1nat, 0nat,
{
    nested_edges(node, node.children.len() as int, g)
}

/// As [`tree_edges`], for the first `count` nested nodes of `node` only.
pub open spec fn nested_edges(node: DependencyNode, count: int, g: Precedence) -> Precedence
    decreases node, 0nat, count,
    when count <= node.children.len()
{
    if count <= 0 {
        g
    } else {
        let child = node.children[count - 1];
        tree_edges(child, with_edge(nested_edges(node, count - 1, g), node.name@, child.name@))
    }
}

/// The graph of the trees `roots[0]`, .., `roots[count - 1]` together.
pub open spec fn forest_edges(roots: Seq<DependencyNode>, count: int) -> Precedence
    decreases count,
{
    if count <= 0 {
        empty_graph()
    } else {
        tree_edges(roots[count - 1], forest_edges(roots, count - 1))
    }
}

/// The tree below `node` declares that `child` depends on `parent`: a
/// node called `child` is nested directly in a node called `parent`.
pub open spec fn declares(node: DependencyNode, parent: Name, child: Name) -> bool
    decreases node, 1nat, 0nat,
{
    nested_declares(node, node.children.len() as int, parent, child)
}

/// As [`declares`], for the first `count` nested nodes of `node` only.
pub open spec fn nested_declares(node: DependencyNode, count: int, parent: Name, child: Name) -> bool
    decreases node, 0nat, count,
    when count <= node.children.len()
{
    if count <= 0 {
        false
    } else {
        let nested = node.children[count - 1];
        nested_declares(node, count - 1, parent, child) || (node.name@ == parent && nested.name@
            == child) || declares(nested, parent, child)
    }
}

/// One of the trees `roots[0]`, .., `roots[count - 1]` declares that
/// `child` depends on `parent`.
pub open spec fn forest_declares(
    roots: Seq<DependencyNode>,
    count: int,
    parent: Name,
    child: Name,
) -> bool
    decreases count,
{
    if count <= 0 {
        false
    } else {
        forest_declares(roots, count - 1, parent, child) || declares(roots[count - 1], parent, child)
    }
}

/// The edges that a tree adds to a graph are the dependencies that it
/// declares, each as the edge from the parent to the child.
pub proof fn lemma_tree_edges(node: DependencyNode, g: Precedence, parent: Name, child: Name)
    ensures
        edge(tree_edges(node, g), parent, child) <==> edge(g, parent, child) || declares(
            node,
            parent,
            child,
        ),
        g.dom().finite() ==> tree_edges(node, g).dom().finite(),
    decreases node, 1nat, 0nat,
{
    lemma_nested_edges(node, node.children.len() as int, g, parent, child);
}

proof fn lemma_nested_edges(
    node: DependencyNode,
    count: int,
    g: Precedence,
    parent: Name,
    child: Name,
)
    requires
        count <= node.children.len(),
    ensures
        edge(nested_edges(node, count, g), parent, child) <==> edge(g, parent, child)
            || nested_declares(node, count, parent, child),
        g.dom().finite() ==> nested_edges(node, count, g).dom().finite(),
    decreases node, 0nat, count,
{
    if count > 0 {
        let nested = node.children[count - 1];
        let before = nested_edges(node, count - 1, g);
        lemma_nested_edges(node, count - 1, g, parent, child);
        lemma_with_edge(before, node.name@, nested.name@, parent, child);
        lemma_tree_edges(nested, with_edge(before, node.name@, nested.name@), parent, child);
    }
}

/// The edges of the graph of a dependency section are the dependencies
/// that its trees declare.
pub proof fn lemma_forest_edges(roots: Seq<DependencyNode>, count: int, parent: Name, child: Name)
    ensures
        edge(forest_edges(roots, count), parent, child) <==> forest_declares(
            roots,
            count,
            parent,
            child,
        ),
        forest_edges(roots, count).dom().finite(),
    decreases count,
{
    if count > 0 {
        lemma_forest_edges(roots, count - 1, parent, child);
        lemma_tree_edges(roots[count - 1], forest_edges(roots, count - 1), parent, child);
    }
}

/// In a schedule of the graph of a dependency section, what a node
/// depends on lies in a layer before the node's own.
pub proof fn declared_order_is_kept(
    roots: Seq<DependencyNode>,
    s: Seq<Seq<Name>>,
    parent: Name,
    child: Name,
)
    requires
        !has_cycle(forest_edges(roots, roots.len() as int)),
        is_schedule(forest_edges(roots, roots.len() as int), s),
        forest_declares(roots, roots.len() as int, parent, child),
    ensures
        scheduled(s, parent),
        scheduled(s, child),
        layer_of(s, parent) < layer_of(s, child),
{
    let g = forest_edges(roots, roots.len() as int);
    lemma_forest_edges(roots, roots.len() as int, parent, child);
    schedule_respects_edges(g, s, parent, child);
}

fn traverse(node: &DependencyNode, dag: &mut Dag)
    ensures
        final(dag)@ == tree_edges(*node, old(dag)@),
    decreases node,
{
    let ghost start = dag@;
    let mut i: usize = 0;
    while i < node.children.len()
        invariant
            i <= node.children.len(),
            dag@ == nested_edges(*node, i as int, start),
        decreases node.children.len() - i,
    {
        let child = &node.children[i];
        dag.before(node.name.clone(), child.name.clone());
        traverse(child, dag);
        i += 1;
    }
}

/// The precedence graph declared by the trees nested in
/// `dependencies_node`. The node itself stands for the whole section and
/// adds no edge.
pub fn parse_deps(dependencies_node: &DependencyNode) -> (dag: Dag)
    ensures
        dag@ == forest_edges(
            dependencies_node.children@,
            dependencies_node.children.len() as int,
        ),
{
    let mut dag = Dag::new();
    let mut i: usize = 0;
    while i < dependencies_node.children.len()
        invariant
            i <= dependencies_node.children.len(),
            dag@ == forest_edges(dependencies_node.children@, i as int),
        decreases dependencies_node.children.len() - i,
    {
        traverse(&dependencies_node.children[i], &mut dag);
        i += 1;
    }
    dag
}

} // verus!
