//! The node graph: it owns the nodes under names that it generates, and it
//! alone connects them.

use vstd::prelude::*;
use core::marker::PhantomData;
use crate::naming::{format_name, suffixed};
use crate::node::{feeds, with_destination, with_source, without_destination, Node};
use crate::port::Port;
use crate::text::str_eq;
use crate::wiring::{
    connected, feeder, first_feeder, first_free, free_index, has_node, lemma_first_feeder_unique,
    lemma_first_free_unique, lemma_instances_bounded, lemma_place, lemma_with_state_names, names_of,
    node_state, unlinked, with_state, NodeEntry,
};

verus! {

/// A node together with the name that the graph gave to it.
struct Named<N> {
    name: String,
    node: N,
}

/// The entries that a list of named nodes stands for.
spec fn entries<S, N: Node<S>>(nodes: Seq<Named<N>>) -> Seq<NodeEntry> {
    nodes.map_values(|n: Named<N>| NodeEntry { name: n.name@, state: n.node.state() })
}

/// The image-compositing graph. It owns its nodes, names each of them when
/// it is added, and is the only one to connect them. Its nodes are of the
/// type `N`; where that is a boxed node, they can be of any kind.
pub struct NodeGraph<S, N: Node<S>> {
    nodes: Vec<Named<N>>,
    sample: PhantomData<S>,
}

impl<S, N: Node<S>> View for NodeGraph<S, N> {
    type V = Seq<NodeEntry>;

    closed spec fn view(&self) -> Seq<NodeEntry> {
        entries::<S, N>(self.nodes@)
    }
}

/// The place of the node named `name`, if there is one.
fn position<S, N: Node<S>>(nodes: &Vec<Named<N>>, name: &str) -> (r: Option<usize>)
    ensures
        match r {
            Some(i) => i < nodes@.len() && nodes@[i as int].name@ == name@,
            None => !has_node(entries::<S, N>(nodes@), name@),
        },
{
    let mut i: usize = 0;
    while i < nodes.len()
        invariant
            i <= nodes@.len(),
            forall|j: int| 0 <= j < i ==> nodes@[j].name@ != name@,
        decreases nodes@.len() - i,
    {
        if str_eq(nodes[i].name.as_str(), name) {
            return Some(i);
        }
        i += 1;
    }
    proof {
        let names = names_of(entries::<S, N>(nodes@));
        assert forall|j: int| 0 <= j < names.len() implies names[j] != name@ by {
            assert(names[j] == nodes@[j].name@);
        }
    }
    None
}

/// The place of the first node whose output slot `slot` feeds `to`, or the
/// number of nodes.
fn find_feeder<S, N: Node<S>>(nodes: &Vec<Named<N>>, slot: &'static str, to: &Port) -> (r: usize)
    ensures
        first_feeder(entries::<S, N>(nodes@), slot@, to@, r as int),
{
    let mut i: usize = 0;
    while i < nodes.len()
        invariant
            i <= nodes@.len(),
            forall|j: int| 0 <= j < i ==> !feeds(#[trigger] entries::<S, N>(nodes@)[j].state, slot@, to@),
        decreases nodes@.len() - i,
    {
        if nodes[i].node.has_connection(slot, to) {
            return i;
        }
        i += 1;
    }
    i
}

impl<S, N: Node<S>> NodeGraph<S, N> {
    #[verifier::type_invariant]
    spec fn inv(&self) -> bool {
        names_of(entries::<S, N>(self.nodes@)).no_duplicates()
    }

    /// Moves the list of nodes out and leaves the graph empty.
    fn take_nodes(&mut self) -> (r: Vec<Named<N>>)
        ensures
            r == old(self).nodes,
    {
        let mut taken = NodeGraph::new();
        core::mem::swap(self, &mut taken);
        let NodeGraph { nodes, sample: _ } = taken;
        nodes
    }

    /// An empty graph.
    pub fn new() -> (r: Self)
        ensures
            r@ == Seq::<NodeEntry>::empty(),
            names_of(r@).no_duplicates(),
    {
        let r = NodeGraph { nodes: Vec::new(), sample: PhantomData };
        assert(r@ =~= Seq::<NodeEntry>::empty());
        r
    }

    /// The number of nodes.
    pub fn len(&self) -> (r: usize)
        ensures
            r == self@.len(),
    {
        self.nodes.len()
    }

    /// The node named `name`, if the graph has one.
    pub fn get(&self, name: &str) -> (r: Option<&N>)
        ensures
            match r {
                Some(node) => has_node(self@, name@) && node.state() == node_state(self@, name@),
                None => !has_node(self@, name@),
            },
    {
        proof {
            use_type_invariant(self);
        }
        match position::<S, N>(&self.nodes, name) {
            Some(i) => {
                proof {
                    assert(names_of(self@)[i as int] == name@);
                }
                Some(&self.nodes[i].node)
            },
            None => None,
        }
    }

    /// Adds a node to the graph and returns the name that it gave to it: the
    /// name of the node's kind, followed by the smallest number that makes a
    /// name which no node of the graph has yet; the number zero is left out.
    pub fn add(&mut self, node: N) -> (r: String)
        ensures
            r@ == suffixed(node.state().kind, free_index(old(self)@, node.state().kind)),
            first_free(old(self)@, node.state().kind, free_index(old(self)@, node.state().kind)),
            final(self)@ == old(self)@.push(NodeEntry { name: r@, state: node.state() }),
            names_of(old(self)@).no_duplicates(),
            names_of(final(self)@).no_duplicates(),
    {
        proof {
            use_type_invariant(&*self);
        }
        let mut nodes = self.take_nodes();
        let ghost g = entries::<S, N>(nodes@);
        let ghost kind = node.state().kind;
        let mut i: usize = 0;
        let mut name: String = format_name(node.name(), i);
        loop
            invariant
                g == entries::<S, N>(nodes@),
                kind == node.state().kind,
                name@ == suffixed(kind, i as nat),
                forall|j: nat| j < i ==> has_node(g, #[trigger] suffixed(kind, j)),
                i <= nodes@.len(),
            ensures
                !has_node(g, name@),
            decreases nodes@.len() - i,
        {
            match position::<S, N>(&nodes, name.as_str()) {
                None => {
                    break;
                },
                Some(at) => {
                    proof {
                        assert(names_of(g)[at as int] == name@);
                        assert forall|j: nat| j < i + 1 implies has_node(
                            g,
                            #[trigger] suffixed(kind, j),
                        ) by {
                            if j == i {
                                assert(has_node(g, name@));
                            }
                        }
                        lemma_instances_bounded(g, kind, (i + 1) as nat);
                        assert(i + 1 <= nodes.len());
                    }
                    i += 1;
                    name = format_name(node.name(), i);
                },
            }
        }
        proof {
            assert(first_free(g, kind, i as nat));
            lemma_first_free_unique(g, kind, i as nat, free_index(g, kind));
        }
        let r = name.clone();
        let ghost state = node.state();
        nodes.push(Named { name, node });
        proof {
            let grown = entries::<S, N>(nodes@);
            assert(grown =~= g.push(NodeEntry { name: r@, state }));
            assert(names_of(grown) =~= names_of(g).push(r@));
        }
        *self = NodeGraph { nodes, sample: PhantomData };
        r
    }

    /// Connects the output port `from` to the input port `to`.
    ///
    /// An input slot has one source at most. So first the nodes are gone
    /// through in the order in which they were added, and the first one
    /// whose output slot named like `from`'s slot already feeds `to` gives
    /// that destination up. Then `to` is appended to the destinations of
    /// `from`, and `from` becomes the source of `to`.
    ///
    /// Both nodes must be in the graph and must declare the slots. (For a
    /// caller that the verifier does not see: where one of the nodes is
    /// missing, the graph stays as it is.)
    pub fn connect(&mut self, from: Port, to: Port)
        requires
            has_node(old(self)@, from@.node_name),
            has_node(old(self)@, to@.node_name),
            node_state(old(self)@, from@.node_name).outputs.contains_key(from@.slot_name),
            node_state(old(self)@, to@.node_name).inputs.contains_key(to@.slot_name),
        ensures
            final(self)@ == connected(old(self)@, from@, to@),
            names_of(old(self)@).no_duplicates(),
            names_of(final(self)@).no_duplicates(),
    {
        proof {
            use_type_invariant(&*self);
        }
        let mut nodes = self.take_nodes();
        let ghost g = entries::<S, N>(nodes@);
        let source = position::<S, N>(&nodes, from.node_name.as_str());
        let destination = position::<S, N>(&nodes, to.node_name.as_str());
        match (source, destination) {
            (Some(f), Some(t)) => {
                proof {
                    lemma_place(g, f as int);
                    lemma_place(g, t as int);
                }
                let i = find_feeder::<S, N>(&nodes, from.slot_name, &to);
                if i < nodes.len() {
                    nodes[i].node.remove_output(from.slot_name, &to);
                }
                let ghost g1 = entries::<S, N>(nodes@);
                proof {
                    let slot = from@.slot_name;
                    lemma_first_feeder_unique(g, slot, to@, i as int, feeder(g, slot, to@));
                    assert(g1 =~= unlinked(g, slot, to@));
                    if i < g.len() {
                        lemma_with_state_names(
                            g,
                            i as int,
                            without_destination(g[i as int].state, slot, to@),
                        );
                    }
                    lemma_place(g1, f as int);
                    lemma_place(g1, t as int);
                }
                nodes[f].node.connect_output(from.slot_name, to.clone());
                let ghost g2 = entries::<S, N>(nodes@);
                proof {
                    let fed = with_destination(g1[f as int].state, from@.slot_name, to@);
                    assert(g2 =~= with_state(g1, f as int, fed));
                    lemma_with_state_names(g1, f as int, fed);
                    lemma_place(g2, t as int);
                }
                let ghost wanted = from@;
                nodes[t].node.connect_input(to.slot_name, from);
                proof {
                    let g3 = entries::<S, N>(nodes@);
                    let sourced = with_source(g2[t as int].state, to@.slot_name, wanted);
                    assert(g3 =~= with_state(g2, t as int, sourced));
                    lemma_with_state_names(g2, t as int, sourced);
                }
            },
            _ => {},
        }
        *self = NodeGraph { nodes, sample: PhantomData };
    }
}

} // verus!
