//! The capability that every node kind offers to the graph.

use vstd::prelude::*;
use crate::image::ImageData;
use crate::port::{
    contains_port, lemma_without_absent, lemma_without_contains, port_views, without, Port, PortView,
};
use crate::slots::SlotMap;

verus! {

/// What a node is to the graph: its kind and the connections of its slots.
pub struct NodeState {
    /// The name of the node's kind.
    pub kind: Seq<char>,
    /// The declared input slots, each with its source if it has one.
    pub inputs: Map<Seq<char>, Option<PortView>>,
    /// The declared output slots, each with its destinations in the order in
    /// which they were connected.
    pub outputs: Map<Seq<char>, Seq<PortView>>,
}

/// `state` with `source` as the source of the input slot `slot`, in place of
/// the one it had.
pub open spec fn with_source(state: NodeState, slot: Seq<char>, source: PortView) -> NodeState {
    NodeState { inputs: state.inputs.insert(slot, Some(source)), ..state }
}

/// `state` with `destination` appended to the destinations of the output
/// slot `slot`.
pub open spec fn with_destination(
    state: NodeState,
    slot: Seq<char>,
    destination: PortView,
) -> NodeState {
    NodeState { outputs: state.outputs.insert(slot, state.outputs[slot].push(destination)), ..state }
}

/// `state` with `destination` taken out of the destinations of the output
/// slot `slot`.
pub open spec fn without_destination(
    state: NodeState,
    slot: Seq<char>,
    destination: PortView,
) -> NodeState {
    NodeState {
        outputs: state.outputs.insert(slot, without(state.outputs[slot], destination)),
        ..state
    }
}

/// Whether `destination` is among the destinations of the output slot
/// `slot`, which is then a declared one.
pub open spec fn feeds(state: NodeState, slot: Seq<char>, destination: PortView) -> bool {
    state.outputs.contains_key(slot) && state.outputs[slot].contains(destination)
}

/// To take out a destination that an output slot does not have changes
/// nothing: the list keeps its length and its order.
pub proof fn lemma_remove_absent(state: NodeState, slot: Seq<char>, destination: PortView)
    requires
        state.outputs.contains_key(slot),
        !state.outputs[slot].contains(destination),
    ensures
        without_destination(state, slot, destination) == state,
{
    lemma_without_absent(state.outputs[slot], destination);
    assert(state.outputs.insert(slot, state.outputs[slot]) =~= state.outputs);
}

/// After a destination was taken out of an output slot, the slot no longer
/// feeds it; what the slot feeds besides, and what the other slots feed, is
/// as before.
pub proof fn lemma_remove_feeds(
    state: NodeState,
    slot: Seq<char>,
    destination: PortView,
    other_slot: Seq<char>,
    other: PortView,
)
    requires
        state.outputs.contains_key(slot),
    ensures
        feeds(without_destination(state, slot, destination), other_slot, other) <==> (feeds(
            state,
            other_slot,
            other,
        ) && !(other_slot == slot && other == destination)),
{
    lemma_without_contains(state.outputs[slot], destination, other);
}

/// The buffers of a slot map, each taken by its samples.
pub open spec fn samples<S>(images: Map<Seq<char>, ImageData<S>>) -> Map<Seq<char>, Seq<S>> {
    images.map_values(|image: ImageData<S>| image@)
}

/// A processing node: it reports its slots, executes on given input data and
/// keeps the connections of its own slots. The slot names of a kind are
/// fixed; to name a slot that the kind does not declare is a wiring error,
/// which the preconditions of the connecting operations rule out.
pub trait Node<S> {
    /// The kind and the connections of this node.
    open spec fn state(&self) -> NodeState {
        arbitrary()
    }

    /// The input slots that `execute` needs data for.
    open spec fn needs(&self) -> Set<Seq<char>> {
        arbitrary()
    }

    /// Whether `output` is a result of executing this node on `input`.
    open spec fn yields(&self, input: Map<Seq<char>, Seq<S>>, output: Map<Seq<char>, Seq<S>>) -> bool {
        arbitrary()
    }

    /// The name of the node's kind, from which the graph generates the names
    /// of its instances.
    fn name(&self) -> (r: &'static str)
        ensures
            r@ == self.state().kind,
    ;

    /// Executes the node on `input`, which it consumes. There is a result
    /// exactly when `input` holds data for every slot that the node needs,
    /// and a node needs data for declared input slots only.
    fn execute(&self, input: SlotMap<ImageData<S>>) -> (r: Option<SlotMap<ImageData<S>>>)
        ensures
            self.needs().subset_of(self.state().inputs.dom()),
            r.is_some() <==> self.needs().subset_of(input@.dom()),
            r matches Some(output) ==> self.yields(samples(input@), samples(output@)),
    ;

    /// The port that feeds the input slot, if the slot is declared and
    /// connected.
    fn input_source(&self, input_slot: &'static str) -> (r: Option<&Port>)
        ensures
            match r {
                Some(p) => self.state().inputs.contains_key(input_slot@)
                    && self.state().inputs[input_slot@] == Some(p@),
                None => !self.state().inputs.contains_key(input_slot@)
                    || self.state().inputs[input_slot@].is_none(),
            },
    ;

    /// The ports that the output slot feeds, if the slot is declared.
    fn output_destinations(&self, output_slot: &'static str) -> (r: Option<&[Port]>)
        ensures
            match r {
                Some(d) => self.state().outputs.contains_key(output_slot@) && port_views(d@)
                    == self.state().outputs[output_slot@],
                None => !self.state().outputs.contains_key(output_slot@),
            },
    ;

    /// Makes `source_port` the source of the input slot, in place of the one
    /// it had.
    fn connect_input(&mut self, input_slot: &'static str, source_port: Port)
        requires
            old(self).state().inputs.contains_key(input_slot@),
        ensures
            final(self).state() == with_source(old(self).state(), input_slot@, source_port@),
            final(self).needs() == old(self).needs(),
            forall|input: Map<Seq<char>, Seq<S>>, output: Map<Seq<char>, Seq<S>>|
                #[trigger] final(self).yields(input, output) == old(self).yields(input, output),
    ;

    /// Appends `destination_port` to the destinations of the output slot.
    fn connect_output(&mut self, output_slot: &'static str, destination_port: Port)
        requires
            old(self).state().outputs.contains_key(output_slot@),
        ensures
            final(self).state() == with_destination(
                old(self).state(),
                output_slot@,
                destination_port@,
            ),
            final(self).needs() == old(self).needs(),
            forall|input: Map<Seq<char>, Seq<S>>, output: Map<Seq<char>, Seq<S>>|
                #[trigger] final(self).yields(input, output) == old(self).yields(input, output),
    ;

    /// Takes `destination_port` out of the destinations of the output slot.
    /// Where it is not among them, nothing changes.
    fn remove_output(&mut self, output_slot: &'static str, destination_port: &Port)
        requires
            old(self).state().outputs.contains_key(output_slot@),
        ensures
            final(self).state() == without_destination(
                old(self).state(),
                output_slot@,
                destination_port@,
            ),
            final(self).needs() == old(self).needs(),
            forall|input: Map<Seq<char>, Seq<S>>, output: Map<Seq<char>, Seq<S>>|
                #[trigger] final(self).yields(input, output) == old(self).yields(input, output),
    ;

    /// Whether the output slot is declared and `destination_port` is among
    /// its destinations.
    fn has_connection(&self, output_slot: &'static str, destination_port: &Port) -> (r: bool)
        ensures
            r == feeds(self.state(), output_slot@, destination_port@),
    {
        match self.output_destinations(output_slot) {
            Some(destinations) => contains_port(destinations, destination_port),
            None => false,
        }
    }
}

/// A boxed node of any kind is a node: every operation is the boxed node's
/// own. With it a graph can hold nodes of different kinds.
impl<S> Node<S> for Box<dyn Node<S>> {
    open spec fn state(&self) -> NodeState {
        (**self).state()
    }

    open spec fn needs(&self) -> Set<Seq<char>> {
        (**self).needs()
    }

    open spec fn yields(&self, input: Map<Seq<char>, Seq<S>>, output: Map<Seq<char>, Seq<S>>) -> bool {
        (**self).yields(input, output)
    }

    fn name(&self) -> (r: &'static str) {
        (**self).name()
    }

    fn execute(&self, input: SlotMap<ImageData<S>>) -> (r: Option<SlotMap<ImageData<S>>>) {
        (**self).execute(input)
    }

    fn input_source(&self, input_slot: &'static str) -> (r: Option<&Port>) {
        (**self).input_source(input_slot)
    }

    fn output_destinations(&self, output_slot: &'static str) -> (r: Option<&[Port]>) {
        (**self).output_destinations(output_slot)
    }

    fn connect_input(&mut self, input_slot: &'static str, source_port: Port) {
        (**self).connect_input(input_slot, source_port)
    }

    fn connect_output(&mut self, output_slot: &'static str, destination_port: Port) {
        (**self).connect_output(output_slot, destination_port)
    }

    fn remove_output(&mut self, output_slot: &'static str, destination_port: &Port) {
        (**self).remove_output(output_slot, destination_port)
    }

    fn has_connection(&self, output_slot: &'static str, destination_port: &Port) -> (r: bool) {
        (**self).has_connection(output_slot, destination_port)
    }
}

} // verus!
