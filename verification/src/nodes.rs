//! The node kinds that the library provides: two kinds of one make, which
//! mix two images by a factor.

use vstd::prelude::*;
use crate::image::ImageData;
use crate::mixer::Mixer;
use crate::node::{samples, Node, NodeState};
use crate::port::{port_views, remove_port, source_view, without, Port, PortView};
use crate::slots::SlotMap;
use crate::text::str_eq;
use crate::wiring::unconnected;

verus! {

/// The three slot names of a mix node differ from one another.
pub proof fn lemma_mix_slot_names()
    ensures
        "INPUT_A"@ != "INPUT_B"@,
        "INPUT_A"@ != "OUTPUT_MIX"@,
        "INPUT_B"@ != "OUTPUT_MIX"@,
{
    reveal_strlit("INPUT_A");
    reveal_strlit("INPUT_B");
    reveal_strlit("OUTPUT_MIX");
    assert("INPUT_A"@[6] != "INPUT_B"@[6]);
    assert("INPUT_A"@.len() != "OUTPUT_MIX"@.len());
    assert("INPUT_B"@.len() != "OUTPUT_MIX"@.len());
}

/// The input slots of a mix node, with the sources of the two.
pub open spec fn mix_inputs(input_a: Option<PortView>, input_b: Option<PortView>) -> Map<
    Seq<char>,
    Option<PortView>,
> {
    Map::<Seq<char>, Option<PortView>>::empty().insert("INPUT_A"@, input_a).insert(
        "INPUT_B"@,
        input_b,
    )
}

/// The output slots of a mix node, with the destinations of the one.
pub open spec fn mix_outputs(output_mix: Seq<PortView>) -> Map<Seq<char>, Seq<PortView>> {
    Map::<Seq<char>, Seq<PortView>>::empty().insert("OUTPUT_MIX"@, output_mix)
}

/// The state of an unconnected mix node of the kind `kind`.
pub open spec fn mix_unconnected(kind: Seq<char>) -> NodeState {
    NodeState { kind, inputs: mix_inputs(None, None), outputs: mix_outputs(Seq::empty()) }
}

/// An unconnected mix node has no connection.
pub proof fn lemma_mix_unconnected(kind: Seq<char>)
    ensures
        unconnected(mix_unconnected(kind)),
{
}

/// The input slots that a mix node needs data for: both.
pub open spec fn mix_needs() -> Set<Seq<char>> {
    set!["INPUT_A"@, "INPUT_B"@]
}

/// Whether `output` holds, under the one output slot and nowhere else, a
/// blend by `mixer` of the two input buffers of `input`.
pub open spec fn mix_yields<S: Copy, F: Fn(S, S, S) -> S>(
    mixer: Mixer<S, F>,
    input: Map<Seq<char>, Seq<S>>,
    output: Map<Seq<char>, Seq<S>>,
) -> bool {
    &&& input.contains_key("INPUT_A"@)
    &&& input.contains_key("INPUT_B"@)
    &&& output.dom() == set!["OUTPUT_MIX"@]
    &&& mixer.mixes(input["INPUT_A"@], input["INPUT_B"@], output["OUTPUT_MIX"@])
}

/// Mixes the buffers that `input` holds under the two input slots. Where
/// one of them is missing there is no result; else the result holds the
/// blend under the output slot.
pub fn mix_execute<S: Copy, F: Fn(S, S, S) -> S>(
    mixer: &Mixer<S, F>,
    input: SlotMap<ImageData<S>>,
) -> (r: Option<SlotMap<ImageData<S>>>)
    ensures
        r.is_some() <==> mix_needs().subset_of(input@.dom()),
        r matches Some(output) ==> mix_yields(*mixer, samples(input@), samples(output@)),
{
    proof {
        lemma_mix_slot_names();
    }
    let ghost given = input@;
    let mut input = input;
    let a = match input.remove("INPUT_A") {
        Some(a) => a,
        None => {
            return None;
        },
    };
    let b = match input.remove("INPUT_B") {
        Some(b) => b,
        None => {
            return None;
        },
    };
    let mut output: SlotMap<ImageData<S>> = SlotMap::new();
    output.insert("OUTPUT_MIX", ImageData { data: mixer.mix(&a.data, &b.data) });
    proof {
        assert(output@.dom() =~= set!["OUTPUT_MIX"@]);
        assert(samples(output@).dom() =~= set!["OUTPUT_MIX"@]);
        assert(samples(given)["INPUT_A"@] == a@);
        assert(samples(given)["INPUT_B"@] == b@);
    }
    Some(output)
}

/// The connections of a mix node: the sources of its two input slots and the
/// destinations of its output slot.
pub struct MixSlots {
    input_a: Option<Port>,
    input_b: Option<Port>,
    output_mix: Vec<Port>,
}

impl MixSlots {
    /// The input slots, each with its source if it has one.
    pub closed spec fn inputs(&self) -> Map<Seq<char>, Option<PortView>> {
        mix_inputs(source_view(self.input_a), source_view(self.input_b))
    }

    /// The output slot with its destinations.
    pub closed spec fn outputs(&self) -> Map<Seq<char>, Seq<PortView>> {
        mix_outputs(port_views(self.output_mix@))
    }

    /// The state of a node of the kind `kind` with these connections.
    pub open spec fn state(&self, kind: Seq<char>) -> NodeState {
        NodeState { kind, inputs: self.inputs(), outputs: self.outputs() }
    }

    /// The slots of a mix node are the same whatever is connected.
    pub proof fn lemma_slots(&self)
        ensures
            self.inputs().dom() == set!["INPUT_A"@, "INPUT_B"@],
            self.outputs().dom() == set!["OUTPUT_MIX"@],
    {
        assert(self.inputs().dom() =~= set!["INPUT_A"@, "INPUT_B"@]);
        assert(self.outputs().dom() =~= set!["OUTPUT_MIX"@]);
    }

    /// No connections.
    pub fn new() -> (r: Self)
        ensures
            r.inputs() == mix_inputs(None, None),
            r.outputs() == mix_outputs(Seq::empty()),
    {
        let r = MixSlots { input_a: None, input_b: None, output_mix: Vec::new() };
        assert(port_views(r.output_mix@) =~= Seq::empty());
        r
    }

    /// The source of the input slot, if the slot is one of the two and is
    /// connected.
    pub fn input_source(&self, input_slot: &'static str) -> (r: Option<&Port>)
        ensures
            match r {
                Some(p) => self.inputs().contains_key(input_slot@) && self.inputs()[input_slot@]
                    == Some(p@),
                None => !self.inputs().contains_key(input_slot@)
                    || self.inputs()[input_slot@].is_none(),
            },
    {
        proof {
            lemma_mix_slot_names();
        }
        if str_eq(input_slot, "INPUT_A") {
            self.input_a.as_ref()
        } else if str_eq(input_slot, "INPUT_B") {
            self.input_b.as_ref()
        } else {
            None
        }
    }

    /// The destinations of the output slot, if the slot is the one.
    pub fn output_destinations(&self, output_slot: &'static str) -> (r: Option<&[Port]>)
        ensures
            match r {
                Some(d) => self.outputs().contains_key(output_slot@) && port_views(d@)
                    == self.outputs()[output_slot@],
                None => !self.outputs().contains_key(output_slot@),
            },
    {
        if str_eq(output_slot, "OUTPUT_MIX") {
            Some(self.output_mix.as_slice())
        } else {
            None
        }
    }

    /// Makes `source_port` the source of the input slot, in place of the one
    /// it had.
    pub fn connect_input(&mut self, input_slot: &'static str, source_port: Port)
        requires
            old(self).inputs().contains_key(input_slot@),
        ensures
            final(self).inputs() == old(self).inputs().insert(input_slot@, Some(source_port@)),
            final(self).outputs() == old(self).outputs(),
    {
        proof {
            lemma_mix_slot_names();
        }
        let ghost source = source_port@;
        if str_eq(input_slot, "INPUT_A") {
            self.input_a = Some(source_port);
        } else if str_eq(input_slot, "INPUT_B") {
            self.input_b = Some(source_port);
        }
        assert(self.inputs() =~= old(self).inputs().insert(input_slot@, Some(source)));
    }

    /// Appends `destination_port` to the destinations of the output slot.
    pub fn connect_output(&mut self, output_slot: &'static str, destination_port: Port)
        requires
            old(self).outputs().contains_key(output_slot@),
        ensures
            final(self).inputs() == old(self).inputs(),
            final(self).outputs() == old(self).outputs().insert(
                output_slot@,
                old(self).outputs()[output_slot@].push(destination_port@),
            ),
    {
        let ghost destination = destination_port@;
        if str_eq(output_slot, "OUTPUT_MIX") {
            self.output_mix.push(destination_port);
        }
        proof {
            assert(port_views(self.output_mix@) =~= port_views(old(self).output_mix@).push(
                destination,
            ));
            assert(self.outputs() =~= old(self).outputs().insert(
                output_slot@,
                old(self).outputs()[output_slot@].push(destination),
            ));
        }
    }

    /// Takes `destination_port` out of the destinations of the output slot.
    pub fn remove_output(&mut self, output_slot: &'static str, destination_port: &Port)
        requires
            old(self).outputs().contains_key(output_slot@),
        ensures
            final(self).inputs() == old(self).inputs(),
            final(self).outputs() == old(self).outputs().insert(
                output_slot@,
                without(old(self).outputs()[output_slot@], destination_port@),
            ),
    {
        if str_eq(output_slot, "OUTPUT_MIX") {
            remove_port(&mut self.output_mix, destination_port);
        }
        proof {
            assert(self.outputs() =~= old(self).outputs().insert(
                output_slot@,
                without(old(self).outputs()[output_slot@], destination_port@),
            ));
        }
    }
}

/// A node that mixes two images by a factor. It has the input slots
/// `INPUT_A` and `INPUT_B`, which it both needs, and the output slot
/// `OUTPUT_MIX`.
#[verifier::reject_recursive_types(S)]
pub struct MixRgba<S: Copy, F: Fn(S, S, S) -> S> {
    mixer: Mixer<S, F>,
    slots: MixSlots,
}

impl<S: Copy, F: Fn(S, S, S) -> S> MixRgba<S, F> {
    pub const INPUT_A: &'static str = "INPUT_A";

    pub const INPUT_B: &'static str = "INPUT_B";

    pub const OUTPUT_MIX: &'static str = "OUTPUT_MIX";

    /// The factor and the blending operation of this node.
    pub closed spec fn mixer(&self) -> Mixer<S, F> {
        self.mixer
    }

    /// The connections of this node.
    pub closed spec fn slots(&self) -> MixSlots {
        self.slots
    }

    /// An unconnected node that mixes by the factor `mix`, with `blend` as
    /// its blending operation: see [`Mixer`].
    pub fn new(mix: S, blend: F) -> (r: Self)
        requires
            forall|a: S, b: S, m: S| call_requires(blend, (a, b, m)),
        ensures
            r.state() == mix_unconnected("MixRgba"@),
            r.mixer().spec_factor() == mix,
            forall|a: S, b: S, o: S| #[trigger]
                r.mixer().blends(a, b, o) <==> call_ensures(blend, (a, b, mix), o),
    {
        MixRgba { mixer: Mixer::new(mix, blend), slots: MixSlots::new() }
    }

    /// The mix factor.
    pub fn mix(&self) -> (r: S)
        ensures
            r == self.mixer().spec_factor(),
    {
        self.mixer.factor()
    }

    /// What this kind is as a node: its name, its slots, the inputs that it
    /// needs and what it yields.
    pub proof fn lemma_kind(&self)
        ensures
            self.state() == self.slots().state("MixRgba"@),
            self.state().inputs.dom() == set!["INPUT_A"@, "INPUT_B"@],
            self.state().outputs.dom() == set!["OUTPUT_MIX"@],
            self.needs() == mix_needs(),
            forall|input: Map<Seq<char>, Seq<S>>, output: Map<Seq<char>, Seq<S>>|
                #[trigger] self.yields(input, output) == mix_yields(self.mixer(), input, output),
    {
        self.slots().lemma_slots();
    }
}

impl<S: Copy, F: Fn(S, S, S) -> S> Node<S> for MixRgba<S, F> {
    open spec fn state(&self) -> NodeState {
        self.slots().state("MixRgba"@)
    }

    open spec fn needs(&self) -> Set<Seq<char>> {
        mix_needs()
    }

    open spec fn yields(&self, input: Map<Seq<char>, Seq<S>>, output: Map<Seq<char>, Seq<S>>) -> bool {
        mix_yields(self.mixer(), input, output)
    }

    fn name(&self) -> (r: &'static str) {
        "MixRgba"
    }

    fn execute(&self, input: SlotMap<ImageData<S>>) -> (r: Option<SlotMap<ImageData<S>>>)
        ensures
            r.is_some() <==> mix_needs().subset_of(input@.dom()),
            r matches Some(output) ==> mix_yields(self.mixer(), samples(input@), samples(output@)),
    {
        proof {
            self.slots.lemma_slots();
        }
        mix_execute(&self.mixer, input)
    }

    fn input_source(&self, input_slot: &'static str) -> (r: Option<&Port>) {
        self.slots.input_source(input_slot)
    }

    fn output_destinations(&self, output_slot: &'static str) -> (r: Option<&[Port]>) {
        self.slots.output_destinations(output_slot)
    }

    fn connect_input(&mut self, input_slot: &'static str, source_port: Port) {
        self.slots.connect_input(input_slot, source_port);
    }

    fn connect_output(&mut self, output_slot: &'static str, destination_port: Port) {
        self.slots.connect_output(output_slot, destination_port);
    }

    fn remove_output(&mut self, output_slot: &'static str, destination_port: &Port) {
        self.slots.remove_output(output_slot, destination_port);
    }
}

/// A node that lays one image over another by a factor. It has the slots of
/// [`MixRgba`] and blends as it does; the two kinds differ in their names.
#[verifier::reject_recursive_types(S)]
pub struct AlphaOver<S: Copy, F: Fn(S, S, S) -> S> {
    mixer: Mixer<S, F>,
    slots: MixSlots,
}

impl<S: Copy, F: Fn(S, S, S) -> S> AlphaOver<S, F> {
    pub const INPUT_A: &'static str = "INPUT_A";

    pub const INPUT_B: &'static str = "INPUT_B";

    pub const OUTPUT_MIX: &'static str = "OUTPUT_MIX";

    pub const NAME: &'static str = "AlphaOver";

    /// The factor and the blending operation of this node.
    pub closed spec fn mixer(&self) -> Mixer<S, F> {
        self.mixer
    }

    /// The connections of this node.
    pub closed spec fn slots(&self) -> MixSlots {
        self.slots
    }

    /// An unconnected node that mixes by the factor `mix`, with `blend` as
    /// its blending operation: see [`Mixer`].
    pub fn new(mix: S, blend: F) -> (r: Self)
        requires
            forall|a: S, b: S, m: S| call_requires(blend, (a, b, m)),
        ensures
            r.state() == mix_unconnected("AlphaOver"@),
            r.mixer().spec_factor() == mix,
            forall|a: S, b: S, o: S| #[trigger]
                r.mixer().blends(a, b, o) <==> call_ensures(blend, (a, b, mix), o),
    {
        AlphaOver { mixer: Mixer::new(mix, blend), slots: MixSlots::new() }
    }

    /// The mix factor.
    pub fn mix(&self) -> (r: S)
        ensures
            r == self.mixer().spec_factor(),
    {
        self.mixer.factor()
    }

    /// What this kind is as a node: its name, its slots, the inputs that it
    /// needs and what it yields.
    pub proof fn lemma_kind(&self)
        ensures
            self.state() == self.slots().state("AlphaOver"@),
            self.state().inputs.dom() == set!["INPUT_A"@, "INPUT_B"@],
            self.state().outputs.dom() == set!["OUTPUT_MIX"@],
            self.needs() == mix_needs(),
            forall|input: Map<Seq<char>, Seq<S>>, output: Map<Seq<char>, Seq<S>>|
                #[trigger] self.yields(input, output) == mix_yields(self.mixer(), input, output),
    {
        self.slots().lemma_slots();
    }
}

impl<S: Copy, F: Fn(S, S, S) -> S> Node<S> for AlphaOver<S, F> {
    open spec fn state(&self) -> NodeState {
        self.slots().state("AlphaOver"@)
    }

    open spec fn needs(&self) -> Set<Seq<char>> {
        mix_needs()
    }

    open spec fn yields(&self, input: Map<Seq<char>, Seq<S>>, output: Map<Seq<char>, Seq<S>>) -> bool {
        mix_yields(self.mixer(), input, output)
    }

    fn name(&self) -> (r: &'static str) {
        "AlphaOver"
    }

    fn execute(&self, input: SlotMap<ImageData<S>>) -> (r: Option<SlotMap<ImageData<S>>>)
        ensures
            r.is_some() <==> mix_needs().subset_of(input@.dom()),
            r matches Some(output) ==> mix_yields(self.mixer(), samples(input@), samples(output@)),
    {
        proof {
            self.slots.lemma_slots();
        }
        mix_execute(&self.mixer, input)
    }

    fn input_source(&self, input_slot: &'static str) -> (r: Option<&Port>) {
        self.slots.input_source(input_slot)
    }

    fn output_destinations(&self, output_slot: &'static str) -> (r: Option<&[Port]>) {
        self.slots.output_destinations(output_slot)
    }

    fn connect_input(&mut self, input_slot: &'static str, source_port: Port) {
        self.slots.connect_input(input_slot, source_port);
    }

    fn connect_output(&mut self, output_slot: &'static str, destination_port: Port) {
        self.slots.connect_output(output_slot, destination_port);
    }

    fn remove_output(&mut self, output_slot: &'static str, destination_port: &Port) {
        self.slots.remove_output(output_slot, destination_port);
    }
}

} // verus!
