use vstd::prelude::*;

verus! {

#[verifier::external_type_specification]
#[verifier::external_body]
#[verifier::reject_recursive_types(N)]
#[verifier::reject_recursive_types(E)]
#[verifier::reject_recursive_types(Ty)]
#[verifier::reject_recursive_types(Ix)]
pub struct ExGraph<N, E, Ty, Ix>(petgraph::graph::Graph<N, E, Ty, Ix>);

#[verifier::external_type_specification]
#[verifier::external_body]
pub struct ExDirected(petgraph::Directed);

/// A graph node: one atom, identified by its atomic number.
#[derive(Debug, PartialEq, Eq)]
pub struct Atom {
    pub number: u32,
}

/// A graph edge: a bond between two atoms, recorded by their graph indices.
#[derive(Debug, PartialEq, Eq)]
pub struct Bond {
    pub atom_start: usize,
    pub atom_end: usize,
}

/// The backing store for a molecule: a petgraph graph with `Atom` node
/// weights and `Bond` edge weights, indexed by `usize` so that node and edge
/// counts are limited only by memory.
pub type MolGraph = petgraph::graph::Graph<Atom, Bond, petgraph::Directed, usize>;

/// The atomic numbers of the node weights of `g`, in creation order.
pub uninterp spec fn graph_atoms(g: MolGraph) -> Seq<u32>;

/// The `(atom_start, atom_end)` fields of the edge weights of `g`, in
/// creation order.
pub uninterp spec fn graph_bonds(g: MolGraph) -> Seq<(usize, usize)>;

/// Relies on petgraph's `Graph::with_capacity`, which returns a graph with
/// no nodes and no edges.
#[verifier::external_body]
fn new_graph() -> (g: MolGraph)
    ensures
        graph_atoms(g) == Seq::<u32>::empty(),
        graph_bonds(g) == Seq::<(usize, usize)>::empty(),
{
    petgraph::graph::Graph::with_capacity(0, 0)
}

/// Relies on petgraph's `Graph::add_node`: it appends a node holding the
/// given weight and returns its index, the node count before the call. With
/// `usize` as the graph's index type it never reaches the index limit, so it
/// does not panic.
#[verifier::external_body]
fn graph_add_node(g: &mut MolGraph, number: u32) -> (idx: usize)
    ensures
        graph_atoms(*final(g)) == graph_atoms(*old(g)).push(number),
        graph_bonds(*final(g)) == graph_bonds(*old(g)),
        idx == graph_atoms(*old(g)).len(),
{
    g.add_node(Atom { number }).index()
}

/// Relies on petgraph's `Graph::add_edge`: it appends an edge from the first
/// node to the second, holding the given weight; here the weight records the
/// same two indices. It panics when either index has no node, so both are
/// required to be in range; with `usize` as the index type it never reaches
/// the edge-count limit.
#[verifier::external_body]
fn graph_add_edge(g: &mut MolGraph, start: usize, end: usize)
    requires
        start < graph_atoms(*old(g)).len(),
        end < graph_atoms(*old(g)).len(),
    ensures
        graph_atoms(*final(g)) == graph_atoms(*old(g)),
        graph_bonds(*final(g)) == graph_bonds(*old(g)).push((start, end)),
{
    let bond = Bond { atom_start: start, atom_end: end };
    g.add_edge(
        petgraph::graph::NodeIndex::new(start),
        petgraph::graph::NodeIndex::new(end),
        bond,
    );
}

/// Relies on petgraph's `Graph::node_count`: the number of nodes.
#[verifier::external_body]
fn graph_node_count(g: &MolGraph) -> (n: usize)
    ensures
        n == graph_atoms(*g).len(),
{
    g.node_count()
}

/// Relies on petgraph's `Graph::edge_count`: the number of edges.
#[verifier::external_body]
fn graph_edge_count(g: &MolGraph) -> (n: usize)
    ensures
        n == graph_bonds(*g).len(),
{
    g.edge_count()
}

/// Relies on petgraph's `Graph::node_weight`: the weight of the node at the
/// given index, or `None` when the index is out of range.
#[verifier::external_body]
fn graph_node_weight(g: &MolGraph, idx: usize) -> (r: Option<&Atom>)
    ensures
        match r {
            Some(a) => idx < graph_atoms(*g).len() && a.number == graph_atoms(*g)[idx as int],
            None => idx >= graph_atoms(*g).len(),
        },
{
    g.node_weight(petgraph::graph::NodeIndex::new(idx))
}

/// Relies on petgraph's `Graph::edge_weight`: the weight of the edge at the
/// given index, or `None` when the index is out of range.
#[verifier::external_body]
fn graph_edge_weight(g: &MolGraph, idx: usize) -> (r: Option<&Bond>)
    ensures
        match r {
            Some(b) => idx < graph_bonds(*g).len() && b.atom_start == graph_bonds(*g)[idx as int].0
                && b.atom_end == graph_bonds(*g)[idx as int].1,
            None => idx >= graph_bonds(*g).len(),
        },
{
    g.edge_weight(petgraph::graph::EdgeIndex::new(idx))
}

/// A molecular graph: atoms and bonds, each addressable by a dense,
/// zero-based index assigned in creation order.
#[derive(Debug)]
pub struct Mol {
    pub graph: MolGraph,
}

/// The atomic numbers of the atoms of `m`, in creation order.
pub open spec fn mol_atoms(m: Mol) -> Seq<u32> {
    graph_atoms(m.graph)
}

/// The `(atom_start, atom_end)` index pairs of the bonds of `m`, in creation
/// order.
pub open spec fn mol_bonds(m: Mol) -> Seq<(usize, usize)> {
    graph_bonds(m.graph)
}

impl Mol {
    /// An empty molecule: no atoms, no bonds.
    pub(crate) fn new() -> (m: Mol)
        ensures
            mol_atoms(m) == Seq::<u32>::empty(),
            mol_bonds(m) == Seq::<(usize, usize)>::empty(),
    {
        Mol { graph: new_graph() }
    }

    /// Appends an atom with the given atomic number and returns its index.
    pub(crate) fn add_atom(&mut self, number: u32) -> (idx: usize)
        ensures
            mol_atoms(*final(self)) == mol_atoms(*old(self)).push(number),
            mol_bonds(*final(self)) == mol_bonds(*old(self)),
            idx == mol_atoms(*old(self)).len(),
    {
        graph_add_node(&mut self.graph, number)
    }

    /// Appends a bond between the two given atom indices.
    pub(crate) fn add_bond(&mut self, start: usize, end: usize)
        requires
            start < mol_atoms(*old(self)).len(),
            end < mol_atoms(*old(self)).len(),
        ensures
            mol_atoms(*final(self)) == mol_atoms(*old(self)),
            mol_bonds(*final(self)) == mol_bonds(*old(self)).push((start, end)),
    {
        graph_add_edge(&mut self.graph, start, end)
    }

    /// The number of atoms.
    pub fn num_atoms(&self) -> (n: usize)
        ensures
            n == mol_atoms(*self).len(),
    {
        graph_node_count(&self.graph)
    }

    /// The number of bonds.
    pub fn num_bonds(&self) -> (n: usize)
        ensures
            n == mol_bonds(*self).len(),
    {
        graph_edge_count(&self.graph)
    }

    /// The atom at the given creation index, or `None` when out of range.
    pub fn atom_with_idx(&self, idx: usize) -> (r: Option<&Atom>)
        ensures
            match r {
                Some(a) => idx < mol_atoms(*self).len() && a.number == mol_atoms(*self)[idx as int],
                None => idx >= mol_atoms(*self).len(),
            },
    {
        graph_node_weight(&self.graph, idx)
    }

    /// The bond at the given creation index, or `None` when out of range.
    pub fn bond_with_idx(&self, idx: usize) -> (r: Option<&Bond>)
        ensures
            match r {
                Some(b) => idx < mol_bonds(*self).len() && b.atom_start == mol_bonds(*self)[idx as int].0
                    && b.atom_end == mol_bonds(*self)[idx as int].1,
                None => idx >= mol_bonds(*self).len(),
            },
    {
        graph_edge_weight(&self.graph, idx)
    }
}

} // verus!
