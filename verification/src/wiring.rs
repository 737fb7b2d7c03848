//! The wiring of a graph as its contracts see it: the nodes by name, the
//! next free name of a kind, and what connecting two ports does.

use vstd::prelude::*;
use crate::naming::{lemma_suffixed_injective, suffixed};
use crate::node::{
    feeds, lemma_remove_feeds, with_destination, with_source, without_destination, NodeState,
};
use crate::port::{lemma_without_contains, lemma_without_distinct, without, PortView};

verus! {

/// A node of the graph as the graph's contracts see it: its instance name
/// and its state.
pub struct NodeEntry {
    pub name: Seq<char>,
    pub state: NodeState,
}

/// The instance names of a graph, in the order in which the nodes were
/// added.
pub open spec fn names_of(g: Seq<NodeEntry>) -> Seq<Seq<char>> {
    g.map_values(|e: NodeEntry| e.name)
}

/// Whether the graph has a node named `name`.
pub open spec fn has_node(g: Seq<NodeEntry>, name: Seq<char>) -> bool {
    names_of(g).contains(name)
}

/// The place of the node named `name`.
pub open spec fn place_of(g: Seq<NodeEntry>, name: Seq<char>) -> int {
    names_of(g).index_of(name)
}

/// The state of the node named `name`.
pub open spec fn node_state(g: Seq<NodeEntry>, name: Seq<char>) -> NodeState {
    g[place_of(g, name)].state
}

/// Whether `k` is the number of the next instance of `kind`: the smallest
/// number whose name is not taken.
pub open spec fn first_free(g: Seq<NodeEntry>, kind: Seq<char>, k: nat) -> bool {
    &&& !has_node(g, suffixed(kind, k))
    &&& forall|j: nat| j < k ==> has_node(g, #[trigger] suffixed(kind, j))
}

/// The number of the next instance of `kind`.
pub open spec fn free_index(g: Seq<NodeEntry>, kind: Seq<char>) -> nat {
    choose|k: nat| first_free(g, kind, k)
}

/// Whether `i` is the place of the first node whose output slot `slot` feeds
/// `to`, or the length of the graph where there is no such node.
pub open spec fn first_feeder(g: Seq<NodeEntry>, slot: Seq<char>, to: PortView, i: int) -> bool {
    &&& 0 <= i <= g.len()
    &&& forall|j: int| 0 <= j < i ==> !feeds(#[trigger] g[j].state, slot, to)
    &&& i < g.len() ==> feeds(g[i].state, slot, to)
}

/// The place of the first node whose output slot `slot` feeds `to`, or the
/// length of the graph.
pub open spec fn feeder(g: Seq<NodeEntry>, slot: Seq<char>, to: PortView) -> int {
    choose|i: int| first_feeder(g, slot, to, i)
}

/// The graph with the state of the node at place `i` replaced.
pub open spec fn with_state(g: Seq<NodeEntry>, i: int, state: NodeState) -> Seq<NodeEntry> {
    g.update(i, NodeEntry { name: g[i].name, state })
}

/// The graph after the first node whose output slot `slot` feeds `to` has
/// given that destination up.
pub open spec fn unlinked(g: Seq<NodeEntry>, slot: Seq<char>, to: PortView) -> Seq<NodeEntry> {
    let i = feeder(g, slot, to);
    if i < g.len() {
        with_state(g, i, without_destination(g[i].state, slot, to))
    } else {
        g
    }
}

/// The graph after `to` was appended to the destinations of `from` and
/// `from` was made the source of `to`.
pub open spec fn linked(g: Seq<NodeEntry>, from: PortView, to: PortView) -> Seq<NodeEntry> {
    let f = place_of(g, from.node_name);
    let fed = with_state(g, f, with_destination(g[f].state, from.slot_name, to));
    let t = place_of(g, to.node_name);
    with_state(fed, t, with_source(fed[t].state, to.slot_name, from))
}

/// The graph after `from` was connected to `to`: the first node whose output
/// slot of the same name as `from`'s already feeds `to` gives that
/// destination up, then the two ports are linked.
pub open spec fn connected(g: Seq<NodeEntry>, from: PortView, to: PortView) -> Seq<NodeEntry> {
    linked(unlinked(g, from.slot_name, to), from, to)
}

/// There is one place at most that is the first feeder.
pub proof fn lemma_first_feeder_unique(
    g: Seq<NodeEntry>,
    slot: Seq<char>,
    to: PortView,
    i: int,
    j: int,
)
    requires
        first_feeder(g, slot, to, i),
        first_feeder(g, slot, to, j),
    ensures
        i == j,
{
}

/// There is one number at most that is the next free one.
pub proof fn lemma_first_free_unique(g: Seq<NodeEntry>, kind: Seq<char>, i: nat, j: nat)
    requires
        first_free(g, kind, i),
        first_free(g, kind, j),
    ensures
        i == j,
{
}

/// In a graph without repeated names a node's name leads to its place.
pub proof fn lemma_place(g: Seq<NodeEntry>, i: int)
    requires
        names_of(g).no_duplicates(),
        0 <= i < g.len(),
    ensures
        has_node(g, g[i].name),
        place_of(g, g[i].name) == i,
{
    assert(names_of(g)[i] == g[i].name);
}

/// To replace the state of a node changes no name.
pub proof fn lemma_with_state_names(g: Seq<NodeEntry>, i: int, state: NodeState)
    requires
        0 <= i < g.len(),
    ensures
        names_of(with_state(g, i, state)) == names_of(g),
{
    assert(names_of(with_state(g, i, state)) =~= names_of(g));
}

/// A set that holds the names of the first `n` instances of a kind has `n`
/// elements or more.
proof fn lemma_instances_counted(names: Set<Seq<char>>, kind: Seq<char>, n: nat)
    requires
        names.finite(),
        forall|j: nat| j < n ==> names.contains(#[trigger] suffixed(kind, j)),
    ensures
        n <= names.len(),
    decreases n,
{
    if n > 0 {
        let last = suffixed(kind, (n - 1) as nat);
        let rest = names.remove(last);
        assert forall|j: nat| j < n - 1 implies rest.contains(#[trigger] suffixed(kind, j)) by {
            if suffixed(kind, j) == last {
                lemma_suffixed_injective(kind, j, (n - 1) as nat);
            }
        }
        lemma_instances_counted(rest, kind, (n - 1) as nat);
    }
}

/// A graph that has the first `n` instances of a kind has `n` nodes or more.
pub proof fn lemma_instances_bounded(g: Seq<NodeEntry>, kind: Seq<char>, n: nat)
    requires
        forall|j: nat| j < n ==> has_node(g, #[trigger] suffixed(kind, j)),
    ensures
        n <= g.len(),
{
    let names = names_of(g);
    vstd::seq_lib::seq_to_set_is_finite(names);
    names.lemma_cardinality_of_set();
    assert forall|j: nat| j < n implies names.to_set().contains(#[trigger] suffixed(kind, j)) by {
        assert(has_node(g, suffixed(kind, j)));
    }
    lemma_instances_counted(names.to_set(), kind, n);
}

/// Every graph has a next free number for every kind, and it is no larger
/// than the number of nodes.
pub proof fn lemma_free_index(g: Seq<NodeEntry>, kind: Seq<char>)
    ensures
        first_free(g, kind, free_index(g, kind)),
        free_index(g, kind) <= g.len(),
{
    let k = lemma_free_from(g, kind, 0);
    lemma_first_free_unique(g, kind, k, free_index(g, kind));
}

/// The next instance of a kind gets the first number whose name is not
/// taken: where the graph has the instances before `k` and not the one at
/// `k`, the next free number is `k`.
pub proof fn lemma_free_index_is(g: Seq<NodeEntry>, kind: Seq<char>, k: nat)
    requires
        first_free(g, kind, k),
    ensures
        free_index(g, kind) == k,
{
    lemma_free_index(g, kind);
    lemma_first_free_unique(g, kind, k, free_index(g, kind));
}

/// The next free number of a kind, found by counting up from `start`.
proof fn lemma_free_from(g: Seq<NodeEntry>, kind: Seq<char>, start: nat) -> (k: nat)
    requires
        forall|j: nat| j < start ==> has_node(g, #[trigger] suffixed(kind, j)),
    ensures
        first_free(g, kind, k),
        k <= g.len(),
    decreases g.len() - start,
{
    lemma_instances_bounded(g, kind, start);
    if has_node(g, suffixed(kind, start)) {
        assert forall|j: nat| j < start + 1 implies has_node(g, #[trigger] suffixed(kind, j)) by {
        }
        lemma_instances_bounded(g, kind, start + 1);
        lemma_free_from(g, kind, start + 1)
    } else {
        start
    }
}

/// Every graph has a first feeder of every port through every slot name, or
/// none, which the length of the graph stands for.
pub proof fn lemma_feeder(g: Seq<NodeEntry>, slot: Seq<char>, to: PortView)
    ensures
        first_feeder(g, slot, to, feeder(g, slot, to)),
{
    lemma_feeder_from(g, slot, to, 0);
}

/// The first feeder, found by going through the nodes from `start`.
proof fn lemma_feeder_from(g: Seq<NodeEntry>, slot: Seq<char>, to: PortView, start: int) -> (i: int)
    requires
        0 <= start <= g.len(),
        forall|j: int| 0 <= j < start ==> !feeds(#[trigger] g[j].state, slot, to),
    ensures
        first_feeder(g, slot, to, i),
    decreases g.len() - start,
{
    if start < g.len() && !feeds(g[start].state, slot, to) {
        lemma_feeder_from(g, slot, to, start + 1)
    } else {
        start
    }
}

/// Whether `from` can be connected to `to`: no name occurs twice, both nodes
/// are in the graph, and they declare the two slots.
pub open spec fn connectable(g: Seq<NodeEntry>, from: PortView, to: PortView) -> bool {
    &&& names_of(g).no_duplicates()
    &&& has_node(g, from.node_name)
    &&& has_node(g, to.node_name)
    &&& node_state(g, from.node_name).outputs.contains_key(from.slot_name)
    &&& node_state(g, to.node_name).inputs.contains_key(to.slot_name)
}

/// Whether the name of the node was generated from its kind.
pub open spec fn named_by_kind(e: NodeEntry) -> bool {
    exists|k: nat| e.name == suffixed(e.state.kind, k)
}

/// Whether every name of the graph was generated from the kind of its node.
pub open spec fn generated(g: Seq<NodeEntry>) -> bool {
    forall|i: int| 0 <= i < g.len() ==> named_by_kind(#[trigger] g[i])
}

/// A node that is added under the next free name of its kind leaves the
/// names distinct and generated.
pub proof fn lemma_added(g: Seq<NodeEntry>, state: NodeState)
    requires
        names_of(g).no_duplicates(),
    ensures
        ({
            let name = suffixed(state.kind, free_index(g, state.kind));
            let grown = g.push(NodeEntry { name, state });
            &&& !has_node(g, name)
            &&& names_of(grown).no_duplicates()
            &&& has_node(grown, name)
            &&& node_state(grown, name) == state
            &&& generated(g) ==> generated(grown)
            &&& forall|other: Seq<char>| has_node(g, other) ==> has_node(grown, other)
                && node_state(grown, other) == node_state(g, other)
        }),
{
    lemma_free_index(g, state.kind);
    let name = suffixed(state.kind, free_index(g, state.kind));
    let entry = NodeEntry { name, state };
    let grown = g.push(entry);
    assert(names_of(grown) =~= names_of(g).push(name));
    lemma_place(grown, g.len() as int);
    assert forall|other: Seq<char>| has_node(g, other) implies has_node(grown, other)
        && node_state(grown, other) == node_state(g, other) by {
        let i = place_of(g, other);
        assert(names_of(g)[i] == other);
        assert(grown[i] == g[i]);
        lemma_place(grown, i);
    }
    if generated(g) {
        assert forall|i: int| 0 <= i < grown.len() implies named_by_kind(#[trigger] grown[i]) by {
            if i < g.len() {
                assert(grown[i] == g[i]);
            } else {
                assert(grown[i].name == suffixed(grown[i].state.kind, free_index(g, state.kind)));
            }
        }
    }
}

/// The three steps of a connection, by the places of the nodes that they
/// change: the first feeder `i`, the source's node `f` and the destination's
/// node `t`.
pub open spec fn connected_at(
    g: Seq<NodeEntry>,
    from: PortView,
    to: PortView,
    i: int,
    f: int,
    t: int,
) -> Seq<NodeEntry> {
    let g1 = if i < g.len() {
        with_state(g, i, without_destination(g[i].state, from.slot_name, to))
    } else {
        g
    };
    let g2 = with_state(g1, f, with_destination(g1[f].state, from.slot_name, to));
    with_state(g2, t, with_source(g2[t].state, to.slot_name, from))
}

/// A connection changes the first feeder, then the source's node, then the
/// destination's node, each found in the graph as it was before.
pub proof fn lemma_connected_steps(g: Seq<NodeEntry>, from: PortView, to: PortView) -> (r: (
    int,
    int,
    int,
))
    requires
        connectable(g, from, to),
    ensures
        first_feeder(g, from.slot_name, to, r.0),
        0 <= r.1 < g.len(),
        0 <= r.2 < g.len(),
        r.1 == place_of(g, from.node_name),
        r.2 == place_of(g, to.node_name),
        g[r.1].name == from.node_name,
        g[r.2].name == to.node_name,
        connected(g, from, to) == connected_at(g, from, to, r.0, r.1, r.2),
{
    lemma_feeder(g, from.slot_name, to);
    let i = feeder(g, from.slot_name, to);
    let f = place_of(g, from.node_name);
    let t = place_of(g, to.node_name);
    assert(names_of(g)[f] == from.node_name);
    assert(names_of(g)[t] == to.node_name);
    let g1 = unlinked(g, from.slot_name, to);
    if i < g.len() {
        lemma_with_state_names(g, i, without_destination(g[i].state, from.slot_name, to));
    }
    assert(names_of(g1) == names_of(g));
    let g2 = with_state(g1, f, with_destination(g1[f].state, from.slot_name, to));
    lemma_with_state_names(g1, f, with_destination(g1[f].state, from.slot_name, to));
    assert(names_of(g2) == names_of(g));
    (i, f, t)
}

/// A connection keeps the nodes, their names, their kinds and their slots.
pub proof fn lemma_connected_nodes(g: Seq<NodeEntry>, from: PortView, to: PortView)
    requires
        connectable(g, from, to),
    ensures
        connected(g, from, to).len() == g.len(),
        names_of(connected(g, from, to)) == names_of(g),
        generated(g) ==> generated(connected(g, from, to)),
        forall|j: int|
            0 <= j < g.len() ==> {
                let after = (#[trigger] connected(g, from, to)[j]).state;
                &&& after.kind == g[j].state.kind
                &&& after.inputs.dom() == g[j].state.inputs.dom()
                &&& after.outputs.dom() == g[j].state.outputs.dom()
            },
{
    let (i, f, t) = lemma_connected_steps(g, from, to);
    let c = connected(g, from, to);
    assert(names_of(c) =~= names_of(g));
    assert forall|j: int| 0 <= j < g.len() implies {
        let after = (#[trigger] c[j]).state;
        &&& after.kind == g[j].state.kind
        &&& after.inputs.dom() == g[j].state.inputs.dom()
        &&& after.outputs.dom() == g[j].state.outputs.dom()
    } by {
        assert(c[j].state.inputs.dom() =~= g[j].state.inputs.dom());
        assert(c[j].state.outputs.dom() =~= g[j].state.outputs.dom());
    }
    if generated(g) {
        assert forall|j: int| 0 <= j < c.len() implies named_by_kind(#[trigger] c[j]) by {
            assert(named_by_kind(g[j]));
            let k = choose|k: nat| g[j].name == suffixed(g[j].state.kind, k);
            assert(c[j].name == suffixed(c[j].state.kind, k));
        }
    }
}

/// After a connection the destination's slot has the source port as its
/// source, and the source's slot has the destination port as its last
/// destination.
pub proof fn lemma_connected_link(g: Seq<NodeEntry>, from: PortView, to: PortView)
    requires
        connectable(g, from, to),
    ensures
        ({
            let c = connected(g, from, to);
            let destinations = node_state(c, from.node_name).outputs[from.slot_name];
            &&& node_state(c, to.node_name).inputs[to.slot_name] == Some(from)
            &&& destinations.len() > 0
            &&& destinations.last() == to
            &&& feeds(node_state(c, from.node_name), from.slot_name, to)
        }),
{
    let (i, f, t) = lemma_connected_steps(g, from, to);
    let c = connected(g, from, to);
    lemma_connected_nodes(g, from, to);
    let g1 = unlinked(g, from.slot_name, to);
    let destinations = c[f].state.outputs[from.slot_name];
    assert(destinations =~= g1[f].state.outputs[from.slot_name].push(to));
    assert(destinations[destinations.len() - 1] == to);
}

/// Where one node at most feeds the destination through an output slot named
/// like the source's, after the connection the source's node alone does, and
/// it has the destination once.
pub proof fn lemma_connected_single_feeder(g: Seq<NodeEntry>, from: PortView, to: PortView)
    requires
        connectable(g, from, to),
        forall|j: int|
            0 <= j < g.len() && feeds(#[trigger] g[j].state, from.slot_name, to) ==> j == feeder(
                g,
                from.slot_name,
                to,
            ),
    ensures
        ({
            let c = connected(g, from, to);
            let destinations = node_state(c, from.node_name).outputs[from.slot_name];
            &&& !destinations.drop_last().contains(to)
            &&& forall|j: int|
                0 <= j < g.len() ==> (feeds(#[trigger] c[j].state, from.slot_name, to) <==> j
                    == place_of(g, from.node_name))
        }),
{
    let (i, f, t) = lemma_connected_steps(g, from, to);
    let c = connected(g, from, to);
    lemma_connected_nodes(g, from, to);
    lemma_connected_link(g, from, to);
    let slot = from.slot_name;
    let g1 = unlinked(g, slot, to);
    let before = g1[f].state.outputs[slot];
    assert(!before.contains(to)) by {
        if i == f {
            lemma_without_contains(g[f].state.outputs[slot], to, to);
        } else {
            assert(g1[f] == g[f]);
            assert(!feeds(g[f].state, slot, to));
        }
    }
    let destinations = c[f].state.outputs[slot];
    assert(destinations =~= before.push(to));
    assert(destinations.drop_last() =~= before);
    assert forall|j: int| 0 <= j < g.len() implies (feeds(#[trigger] c[j].state, slot, to) <==> j
        == f) by {
        if j == f {
        } else if j == i {
            lemma_without_contains(g[i].state.outputs[slot], to, to);
        } else {
            assert(c[j].state.outputs == g[j].state.outputs);
        }
    }
}

/// A connection changes the source of the destination's slot and of no
/// other input slot. It changes no output slot of another name than the
/// source's, and through the slots of that name every node feeds the ports
/// other than the destination as before.
pub proof fn lemma_connected_frame(g: Seq<NodeEntry>, from: PortView, to: PortView)
    requires
        connectable(g, from, to),
    ensures
        forall|j: int, slot: Seq<char>|
            0 <= j < g.len() && !(j == place_of(g, to.node_name) && slot == to.slot_name)
                ==> #[trigger] connected(g, from, to)[j].state.inputs[slot]
                == g[j].state.inputs[slot],
        forall|j: int, slot: Seq<char>|
            0 <= j < g.len() && slot != from.slot_name ==> #[trigger] connected(
                g,
                from,
                to,
            )[j].state.outputs[slot] == g[j].state.outputs[slot],
        forall|j: int, slot: Seq<char>, other: PortView|
            0 <= j < g.len() && other != to ==> (#[trigger] feeds(
                connected(g, from, to)[j].state,
                slot,
                other,
            ) <==> feeds(g[j].state, slot, other)),
{
    let (i, f, t) = lemma_connected_steps(g, from, to);
    let c = connected(g, from, to);
    let name = from.slot_name;
    assert forall|j: int, slot: Seq<char>, other: PortView|
        0 <= j < g.len() && other != to implies (#[trigger] feeds(c[j].state, slot, other) <==> feeds(
        g[j].state,
        slot,
        other,
    )) by {
        let g1 = unlinked(g, name, to);
        assert(feeds(g1[j].state, slot, other) <==> feeds(g[j].state, slot, other)) by {
            if j == i {
                lemma_remove_feeds(g[i].state, name, to, slot, other);
            }
        }
        assert(feeds(c[j].state, slot, other) <==> feeds(g1[j].state, slot, other)) by {
            if j == f && slot == name {
                let before = g1[f].state.outputs[name];
                assert(c[f].state.outputs[name] =~= before.push(to));
                if before.contains(other) {
                    let at = before.index_of(other);
                    assert(before.push(to)[at] == other);
                }
                if before.push(to).contains(other) {
                    let at = before.push(to).index_of(other);
                    assert(before[at] == other);
                }
            }
        }
    }
}

/// The port of the node `e` at its slot `slot`.
pub open spec fn port_of(e: NodeEntry, slot: Seq<char>) -> PortView {
    PortView { node_name: e.name, slot_name: slot }
}

/// Whether the input port `to` is in the graph and has `from` as its source.
pub open spec fn sourced(g: Seq<NodeEntry>, to: PortView, from: PortView) -> bool {
    &&& has_node(g, to.node_name)
    &&& node_state(g, to.node_name).inputs.contains_key(to.slot_name)
    &&& node_state(g, to.node_name).inputs[to.slot_name] == Some(from)
}

/// Whether the output port `from` is in the graph and feeds `to`.
pub open spec fn fed(g: Seq<NodeEntry>, from: PortView, to: PortView) -> bool {
    &&& has_node(g, from.node_name)
    &&& feeds(node_state(g, from.node_name), from.slot_name, to)
}

/// Whether no output slot of the node has a destination twice.
pub open spec fn tidy(state: NodeState) -> bool {
    forall|slot: Seq<char>|
        state.outputs.contains_key(slot) ==> (#[trigger] state.outputs[slot]).no_duplicates()
}

/// Whether the connections of the graph agree at both ends, each being
/// recorded once: no name occurs twice, no output port has a destination
/// twice, every destination of an output port has that port as its source,
/// and every source of an input port feeds that port.
pub open spec fn coherent(g: Seq<NodeEntry>) -> bool {
    &&& names_of(g).no_duplicates()
    &&& forall|j: int| 0 <= j < g.len() ==> tidy(#[trigger] g[j].state)
    &&& forall|j: int, slot: Seq<char>, to: PortView|
        0 <= j < g.len() && #[trigger] feeds(g[j].state, slot, to) ==> sourced(
            g,
            to,
            port_of(g[j], slot),
        )
    &&& forall|j: int, slot: Seq<char>|
        0 <= j < g.len() && g[j].state.inputs.contains_key(slot) && (
        #[trigger] g[j].state.inputs[slot]).is_some() ==> fed(
            g,
            g[j].state.inputs[slot].unwrap(),
            port_of(g[j], slot),
        )
}

/// Whether the node has no connection at all.
pub open spec fn unconnected(state: NodeState) -> bool {
    &&& forall|slot: Seq<char>|
        state.inputs.contains_key(slot) ==> (#[trigger] state.inputs[slot]).is_none()
    &&& forall|slot: Seq<char>|
        state.outputs.contains_key(slot) ==> (#[trigger] state.outputs[slot]).len() == 0
}

/// The connections of the empty graph agree at both ends.
pub proof fn lemma_empty_coherent()
    ensures
        coherent(Seq::<NodeEntry>::empty()),
{
    assert(names_of(Seq::<NodeEntry>::empty()) =~= Seq::<Seq<char>>::empty());
}

/// The connections of a graph still agree at both ends after a node without
/// connections was added under a name that no node has.
pub proof fn lemma_added_coherent(g: Seq<NodeEntry>, name: Seq<char>, state: NodeState)
    requires
        coherent(g),
        !has_node(g, name),
        unconnected(state),
    ensures
        coherent(g.push(NodeEntry { name, state })),
{
    let grown = g.push(NodeEntry { name, state });
    let n = g.len() as int;
    assert(names_of(grown) =~= names_of(g).push(name));
    assert forall|j: int| 0 <= j < grown.len() implies tidy(#[trigger] grown[j].state) by {
        if j < n {
            assert(grown[j] == g[j]);
        } else {
            assert forall|slot: Seq<char>| state.outputs.contains_key(slot) implies (
            #[trigger] state.outputs[slot]).no_duplicates() by {
                assert(state.outputs[slot].len() == 0);
            }
        }
    }
    assert forall|j: int, slot: Seq<char>, to: PortView|
        0 <= j < grown.len() && #[trigger] feeds(grown[j].state, slot, to) implies sourced(
        grown,
        to,
        port_of(grown[j], slot),
    ) by {
        if j < n {
            assert(grown[j] == g[j]);
            assert(sourced(g, to, port_of(g[j], slot)));
            let at = place_of(g, to.node_name);
            assert(names_of(g)[at] == to.node_name);
            assert(grown[at] == g[at]);
            lemma_place(grown, at);
        } else {
            assert(state.outputs[slot].len() == 0);
        }
    }
    assert forall|j: int, slot: Seq<char>|
        0 <= j < grown.len() && grown[j].state.inputs.contains_key(slot) && (
        #[trigger] grown[j].state.inputs[slot]).is_some() implies fed(
        grown,
        grown[j].state.inputs[slot].unwrap(),
        port_of(grown[j], slot),
    ) by {
        if j < n {
            assert(grown[j] == g[j]);
            let q = g[j].state.inputs[slot].unwrap();
            assert(fed(g, q, port_of(g[j], slot)));
            let at = place_of(g, q.node_name);
            assert(names_of(g)[at] == q.node_name);
            assert(grown[at] == g[at]);
            lemma_place(grown, at);
        } else {
            assert(state.inputs[slot].is_none());
        }
    }
}

/// In a graph whose connections agree at both ends, an input port is fed by
/// its source only.
pub proof fn lemma_coherent_single_source(
    g: Seq<NodeEntry>,
    j: int,
    slot: Seq<char>,
    k: int,
    other_slot: Seq<char>,
    to: PortView,
)
    requires
        coherent(g),
        0 <= j < g.len(),
        0 <= k < g.len(),
        feeds(g[j].state, slot, to),
        feeds(g[k].state, other_slot, to),
    ensures
        j == k,
        slot == other_slot,
{
    assert(sourced(g, to, port_of(g[j], slot)));
    assert(sourced(g, to, port_of(g[k], other_slot)));
    assert(names_of(g)[j] == g[j].name);
    assert(names_of(g)[k] == g[k].name);
}

/// Single source: in a graph whose connections agree at both ends, a
/// connection leaves them in agreement, provided that the source which the
/// destination had before, if it had one, is an output slot of the same name
/// as the new source. (The node that gives the destination up is looked for
/// under that slot name only.)
pub proof fn lemma_connected_coherent(g: Seq<NodeEntry>, from: PortView, to: PortView)
    requires
        coherent(g),
        connectable(g, from, to),
        node_state(g, to.node_name).inputs[to.slot_name] matches Some(q) ==> q.slot_name
            == from.slot_name,
    ensures
        coherent(connected(g, from, to)),
{
    let (i, f, t) = lemma_connected_steps(g, from, to);
    let c = connected(g, from, to);
    let name = from.slot_name;
    lemma_connected_nodes(g, from, to);
    lemma_connected_frame(g, from, to);
    // Whatever feeds the destination before is the first feeder, under the source's slot name.
    assert forall|j: int, slot: Seq<char>| 0 <= j < g.len() && feeds(g[j].state, slot, to) implies j
        == i && slot == name by {
        assert(sourced(g, to, port_of(g[j], slot)));
        if i < g.len() {
            lemma_coherent_single_source(g, j, slot, i, name, to);
        }
    }
    assert forall|j: int| 0 <= j < g.len() && feeds(#[trigger] g[j].state, name, to) implies j
        == feeder(g, name, to) by {
        lemma_feeder(g, name, to);
        lemma_first_feeder_unique(g, name, to, i, feeder(g, name, to));
    }
    lemma_connected_link(g, from, to);
    lemma_connected_single_feeder(g, from, to);
    assert forall|j: int| 0 <= j < c.len() implies tidy(#[trigger] c[j].state) by {
        assert(tidy(g[j].state));
        assert forall|slot: Seq<char>| c[j].state.outputs.contains_key(slot) implies (
        #[trigger] c[j].state.outputs[slot]).no_duplicates() by {
            assert(c[j].state.outputs.dom() == g[j].state.outputs.dom());
            let before = g[j].state.outputs[slot];
            assert(before.no_duplicates());
            if slot != name {
                assert(c[j].state.outputs[slot] == before);
            } else if j == f {
                let kept = c[f].state.outputs[name].drop_last();
                assert(c[f].state.outputs[name] =~= kept.push(to));
                lemma_without_distinct(before, to);
                assert(kept == if i == f {
                    without(before, to)
                } else {
                    before
                });
            } else if j == i {
                lemma_without_distinct(before, to);
            } else {
                assert(c[j].state.outputs[slot] == before);
            }
        }
    }
    // After the connection the source's slot alone feeds the destination.
    assert forall|j: int, slot: Seq<char>| 0 <= j < g.len() && feeds(c[j].state, slot, to) implies j
        == f && slot == name by {
        if slot != name {
            assert(c[j].state.outputs[slot] == g[j].state.outputs[slot]);
            assert(c[j].state.outputs.dom() == g[j].state.outputs.dom());
            assert(feeds(g[j].state, slot, to));
        }
    }
    assert(from == port_of(c[f], name));
    assert(to == port_of(c[t], to.slot_name));
    assert forall|j: int, slot: Seq<char>, p: PortView|
        0 <= j < c.len() && #[trigger] feeds(c[j].state, slot, p) implies sourced(
        c,
        p,
        port_of(c[j], slot),
    ) by {
        if p == to {
            assert(j == f && slot == name);
        } else {
            assert(feeds(g[j].state, slot, p));
            assert(sourced(g, p, port_of(g[j], slot)));
            let at = place_of(g, p.node_name);
            assert(names_of(g)[at] == p.node_name);
            assert(!(at == t && p.slot_name == to.slot_name));
            assert(c[at].state.inputs[p.slot_name] == g[at].state.inputs[p.slot_name]);
        }
    }
    assert forall|j: int, slot: Seq<char>|
        0 <= j < c.len() && c[j].state.inputs.contains_key(slot) && (
        #[trigger] c[j].state.inputs[slot]).is_some() implies fed(
        c,
        c[j].state.inputs[slot].unwrap(),
        port_of(c[j], slot),
    ) by {
        if j == t && slot == to.slot_name {
        } else {
            assert(c[j].state.inputs[slot] == g[j].state.inputs[slot]);
            assert(c[j].state.inputs.dom() == g[j].state.inputs.dom());
            let q = g[j].state.inputs[slot].unwrap();
            let p = port_of(g[j], slot);
            assert(fed(g, q, p));
            assert(names_of(g)[j] == g[j].name);
            assert(p != to);
            let at = place_of(g, q.node_name);
            assert(names_of(g)[at] == q.node_name);
            assert(feeds(c[at].state, q.slot_name, p) <==> feeds(g[at].state, q.slot_name, p));
        }
    }
}

} // verus!
