use composite::graph::NodeGraph;
use composite::node::Node;
use composite::nodes;
use composite::port::Port;

type Blend = fn(f32, f32, f32) -> f32;
type MixRgba = nodes::MixRgba<f32, Blend>;
type AlphaOver = nodes::AlphaOver<f32, Blend>;
type Graph = NodeGraph<f32, Box<dyn Node<f32>>>;

fn blend(a: f32, b: f32, mix: f32) -> f32 {
    a * mix + b * (1. - mix)
}

fn port(node_name: &str, slot_name: &'static str) -> Port {
    Port {
        node_name: node_name.to_string(),
        slot_name,
    }
}

#[test]
fn composite_node_graph_connect() {
    let mut graph: Graph = NodeGraph::new();
    let ao1 = graph.add(Box::new(AlphaOver::new(1.0, blend)));
    let ao2 = graph.add(Box::new(AlphaOver::new(0.6, blend)));
    let ao3 = graph.add(Box::new(AlphaOver::new(0.3, blend)));
    assert_eq!(ao1, "AlphaOver");
    assert_eq!(ao2, "AlphaOver1");
    assert_eq!(ao3, "AlphaOver2");

    graph.connect(
        Port {
            node_name: ao1.clone(),
            slot_name: AlphaOver::OUTPUT_MIX,
        },
        Port {
            node_name: ao2.clone(),
            slot_name: AlphaOver::INPUT_A,
        },
    );

    graph.connect(
        Port {
            node_name: ao3.clone(),
            slot_name: AlphaOver::OUTPUT_MIX,
        },
        Port {
            node_name: ao2.clone(),
            slot_name: AlphaOver::INPUT_B,
        },
    );

    graph.connect(
        Port {
            node_name: ao3.clone(),
            slot_name: AlphaOver::OUTPUT_MIX,
        },
        Port {
            node_name: ao2.clone(),
            slot_name: AlphaOver::INPUT_A,
        },
    );

    let n1 = graph.get(&ao1).unwrap();
    let n2 = graph.get(&ao2).unwrap();
    let n3 = graph.get(&ao3).unwrap();
    assert_eq!(
        n2.input_source(AlphaOver::INPUT_A),
        Some(&port(&ao3, AlphaOver::OUTPUT_MIX))
    );
    assert_eq!(
        n2.input_source(AlphaOver::INPUT_B),
        Some(&port(&ao3, AlphaOver::OUTPUT_MIX))
    );
    assert_eq!(n1.output_destinations(AlphaOver::OUTPUT_MIX), Some(&[][..]));
    assert_eq!(
        n3.output_destinations(AlphaOver::OUTPUT_MIX),
        Some(&[port(&ao2, AlphaOver::INPUT_B), port(&ao2, AlphaOver::INPUT_A)][..])
    );
}

#[test]
fn mod_node_graph_connect() {
    let mut graph: Graph = NodeGraph::new();
    let ao1 = graph.add(Box::new(MixRgba::new(1.0, blend)));
    let ao2 = graph.add(Box::new(MixRgba::new(0.6, blend)));
    let ao3 = graph.add(Box::new(MixRgba::new(0.3, blend)));

    graph.connect(
        Port {
            node_name: ao1.clone(),
            slot_name: MixRgba::OUTPUT_MIX,
        },
        Port {
            node_name: ao2.clone(),
            slot_name: MixRgba::INPUT_A,
        },
    );
    assert_eq!(
        graph.get(&ao2).unwrap().input_source(MixRgba::INPUT_A),
        Some(&port(&ao1, MixRgba::OUTPUT_MIX))
    );
    assert_eq!(
        graph.get(&ao1).unwrap().output_destinations(MixRgba::OUTPUT_MIX),
        Some(&[port(&ao2, MixRgba::INPUT_A)][..])
    );

    graph.connect(
        Port {
            node_name: ao3.clone(),
            slot_name: MixRgba::OUTPUT_MIX,
        },
        Port {
            node_name: ao2.clone(),
            slot_name: MixRgba::INPUT_B,
        },
    );

    graph.connect(
        Port {
            node_name: ao3.clone(),
            slot_name: MixRgba::OUTPUT_MIX,
        },
        Port {
            node_name: ao2.clone(),
            slot_name: MixRgba::INPUT_A,
        },
    );

    let n1 = graph.get(&ao1).unwrap();
    let n2 = graph.get(&ao2).unwrap();
    let n3 = graph.get(&ao3).unwrap();
    assert_eq!(
        n2.input_source(MixRgba::INPUT_A),
        Some(&port(&ao3, MixRgba::OUTPUT_MIX))
    );
    assert_eq!(
        n2.input_source(MixRgba::INPUT_B),
        Some(&port(&ao3, MixRgba::OUTPUT_MIX))
    );
    assert_eq!(n1.output_destinations(MixRgba::OUTPUT_MIX), Some(&[][..]));
    assert!(!n1.has_connection(MixRgba::OUTPUT_MIX, &port(&ao2, MixRgba::INPUT_A)));
    assert!(n3.has_connection(MixRgba::OUTPUT_MIX, &port(&ao2, MixRgba::INPUT_A)));
    assert!(n3.has_connection(MixRgba::OUTPUT_MIX, &port(&ao2, MixRgba::INPUT_B)));
}

/// A node kind of the tests: any kind name and any slots, and nothing to execute.
struct Plain {
    kind: &'static str,
    inputs: Vec<(&'static str, Option<Port>)>,
    outputs: Vec<(&'static str, Vec<Port>)>,
}

impl Plain {
    fn new(kind: &'static str, inputs: &[&'static str], outputs: &[&'static str]) -> Self {
        Plain {
            kind,
            inputs: inputs.iter().map(|s| (*s, None)).collect(),
            outputs: outputs.iter().map(|s| (*s, Vec::new())).collect(),
        }
    }
}

impl Node<f32> for Plain {
    fn name(&self) -> &'static str {
        self.kind
    }

    fn execute(
        &self,
        _input: composite::slots::SlotMap<composite::image::ImageData<f32>>,
    ) -> Option<composite::slots::SlotMap<composite::image::ImageData<f32>>> {
        Some(composite::slots::SlotMap::new())
    }

    fn input_source(&self, input_slot: &'static str) -> Option<&Port> {
        self.inputs
            .iter()
            .find(|(s, _)| *s == input_slot)
            .and_then(|(_, p)| p.as_ref())
    }

    fn output_destinations(&self, output_slot: &'static str) -> Option<&[Port]> {
        self.outputs
            .iter()
            .find(|(s, _)| *s == output_slot)
            .map(|(_, d)| &d[..])
    }

    fn connect_input(&mut self, input_slot: &'static str, source_port: Port) {
        let slot = self
            .inputs
            .iter_mut()
            .find(|(s, _)| *s == input_slot)
            .unwrap();
        slot.1 = Some(source_port);
    }

    fn connect_output(&mut self, output_slot: &'static str, destination_port: Port) {
        let slot = self
            .outputs
            .iter_mut()
            .find(|(s, _)| *s == output_slot)
            .unwrap();
        slot.1.push(destination_port);
    }

    fn remove_output(&mut self, output_slot: &'static str, destination_port: &Port) {
        let slot = self
            .outputs
            .iter_mut()
            .find(|(s, _)| *s == output_slot)
            .unwrap();
        slot.1.retain(|p| p != destination_port);
    }
}

fn mix() -> Box<dyn Node<f32>> {
    Box::new(Plain::new("Mix", &["INPUT_A", "INPUT_B"], &["OUTPUT_MIX"]))
}

#[test]
fn names_of_three_instances_of_one_kind() {
    let mut graph: Graph = NodeGraph::new();
    assert_eq!(graph.add(mix()), "Mix");
    assert_eq!(graph.add(mix()), "Mix1");
    assert_eq!(graph.add(mix()), "Mix2");
    assert_eq!(graph.len(), 3);
}

#[test]
fn names_go_on_past_nine() {
    let mut graph: Graph = NodeGraph::new();
    let mut names = Vec::new();
    for _ in 0..12 {
        names.push(graph.add(mix()));
    }
    assert_eq!(names[9], "Mix9");
    assert_eq!(names[10], "Mix10");
    assert_eq!(names[11], "Mix11");
    assert_eq!(graph.len(), 12);
}

#[test]
fn names_of_different_kinds_are_counted_apart() {
    let mut graph: Graph = NodeGraph::new();
    assert_eq!(graph.add(Box::new(MixRgba::new(0.5, blend))), "MixRgba");
    assert_eq!(graph.add(Box::new(AlphaOver::new(0.5, blend))), "AlphaOver");
    assert_eq!(graph.add(Box::new(MixRgba::new(0.5, blend))), "MixRgba1");
    assert_eq!(graph.add(mix()), "Mix");
    assert_eq!(graph.add(Box::new(AlphaOver::new(0.5, blend))), "AlphaOver1");
    assert_eq!(graph.len(), 5);
    assert_eq!(graph.get("MixRgba1").unwrap().name(), "MixRgba");
    assert_eq!(graph.get("AlphaOver").unwrap().name(), "AlphaOver");
}

#[test]
fn names_skip_what_another_kind_has_taken() {
    let mut graph: Graph = NodeGraph::new();
    assert_eq!(graph.add(Box::new(Plain::new("a1", &[], &[]))), "a1");
    assert_eq!(graph.add(Box::new(Plain::new("a", &[], &[]))), "a");
    assert_eq!(graph.add(Box::new(Plain::new("a", &[], &[]))), "a2");
    assert_eq!(graph.add(Box::new(Plain::new("a1", &[], &[]))), "a11");
    assert_eq!(graph.add(Box::new(Plain::new("a", &[], &[]))), "a3");
}

#[test]
fn an_empty_graph_has_no_node() {
    let graph: Graph = NodeGraph::new();
    assert_eq!(graph.len(), 0);
    assert!(graph.get("Mix").is_none());
    assert!(graph.get("").is_none());
}

#[test]
fn get_finds_nodes_by_their_generated_names_only() {
    let mut graph: Graph = NodeGraph::new();
    graph.add(Box::new(MixRgba::new(0.25, blend)));
    graph.add(Box::new(MixRgba::new(0.75, blend)));
    assert!(graph.get("MixRgba").is_some());
    assert!(graph.get("MixRgba1").is_some());
    assert!(graph.get("MixRgba2").is_none());
    assert!(graph.get("MixRgba0").is_none());
    assert!(graph.get("mixrgba").is_none());
}

#[test]
fn a_graph_of_one_kind_needs_no_box() {
    let mut graph: NodeGraph<f32, MixRgba> = NodeGraph::new();
    let a = graph.add(MixRgba::new(0.25, blend));
    let b = graph.add(MixRgba::new(0.75, blend));
    graph.connect(port(&a, MixRgba::OUTPUT_MIX), port(&b, MixRgba::INPUT_B));
    assert_eq!(graph.get(&a).unwrap().mix(), 0.25);
    assert_eq!(graph.get(&b).unwrap().mix(), 0.75);
    assert_eq!(
        graph.get(&b).unwrap().input_source(MixRgba::INPUT_B),
        Some(&port(&a, MixRgba::OUTPUT_MIX))
    );
}

#[test]
fn connect_links_both_ends() {
    let mut graph: Graph = NodeGraph::new();
    let a = graph.add(mix());
    let b = graph.add(mix());
    graph.connect(port(&a, "OUTPUT_MIX"), port(&b, "INPUT_B"));
    assert_eq!(
        graph.get(&a).unwrap().output_destinations("OUTPUT_MIX"),
        Some(&[port(&b, "INPUT_B")][..])
    );
    assert_eq!(
        graph.get(&b).unwrap().input_source("INPUT_B"),
        Some(&port(&a, "OUTPUT_MIX"))
    );
    assert_eq!(graph.get(&b).unwrap().input_source("INPUT_A"), None);
    assert_eq!(graph.get(&a).unwrap().input_source("INPUT_B"), None);
    assert_eq!(
        graph.get(&b).unwrap().output_destinations("OUTPUT_MIX"),
        Some(&[][..])
    );
    assert_eq!(graph.len(), 2);
}

#[test]
fn connect_twice_keeps_one_destination() {
    let mut graph: Graph = NodeGraph::new();
    let a = graph.add(mix());
    let b = graph.add(mix());
    graph.connect(port(&a, "OUTPUT_MIX"), port(&b, "INPUT_A"));
    graph.connect(port(&a, "OUTPUT_MIX"), port(&b, "INPUT_A"));
    assert_eq!(
        graph.get(&a).unwrap().output_destinations("OUTPUT_MIX"),
        Some(&[port(&b, "INPUT_A")][..])
    );
    assert_eq!(
        graph.get(&b).unwrap().input_source("INPUT_A"),
        Some(&port(&a, "OUTPUT_MIX"))
    );
}

#[test]
fn connect_fans_out_in_the_order_of_the_calls() {
    let mut graph: Graph = NodeGraph::new();
    let a = graph.add(mix());
    let b = graph.add(mix());
    let c = graph.add(mix());
    graph.connect(port(&a, "OUTPUT_MIX"), port(&c, "INPUT_B"));
    graph.connect(port(&a, "OUTPUT_MIX"), port(&b, "INPUT_A"));
    graph.connect(port(&a, "OUTPUT_MIX"), port(&c, "INPUT_A"));
    assert_eq!(
        graph.get(&a).unwrap().output_destinations("OUTPUT_MIX"),
        Some(&[port(&c, "INPUT_B"), port(&b, "INPUT_A"), port(&c, "INPUT_A")][..])
    );
    graph.connect(port(&a, "OUTPUT_MIX"), port(&c, "INPUT_B"));
    assert_eq!(
        graph.get(&a).unwrap().output_destinations("OUTPUT_MIX"),
        Some(&[port(&b, "INPUT_A"), port(&c, "INPUT_A"), port(&c, "INPUT_B")][..])
    );
}

#[test]
fn connect_a_node_to_itself() {
    let mut graph: Graph = NodeGraph::new();
    let a = graph.add(mix());
    graph.connect(port(&a, "OUTPUT_MIX"), port(&a, "INPUT_A"));
    let node = graph.get(&a).unwrap();
    assert_eq!(node.input_source("INPUT_A"), Some(&port(&a, "OUTPUT_MIX")));
    assert_eq!(
        node.output_destinations("OUTPUT_MIX"),
        Some(&[port(&a, "INPUT_A")][..])
    );
}

#[test]
fn connect_makes_the_earlier_source_give_up() {
    let mut graph: Graph = NodeGraph::new();
    let a = graph.add(mix());
    let b = graph.add(mix());
    let c = graph.add(mix());
    graph.connect(port(&c, "OUTPUT_MIX"), port(&b, "INPUT_A"));
    graph.connect(port(&c, "OUTPUT_MIX"), port(&a, "INPUT_A"));
    graph.connect(port(&a, "OUTPUT_MIX"), port(&b, "INPUT_A"));
    assert_eq!(
        graph.get(&c).unwrap().output_destinations("OUTPUT_MIX"),
        Some(&[port(&a, "INPUT_A")][..])
    );
    assert_eq!(
        graph.get(&a).unwrap().output_destinations("OUTPUT_MIX"),
        Some(&[port(&b, "INPUT_A")][..])
    );
    assert_eq!(
        graph.get(&b).unwrap().input_source("INPUT_A"),
        Some(&port(&a, "OUTPUT_MIX"))
    );
}

#[test]
fn connect_looks_under_the_slot_name_of_the_new_source_only() {
    let mut graph: Graph = NodeGraph::new();
    let one = graph.add(Box::new(Plain::new("One", &[], &["FIRST"])));
    let two = graph.add(Box::new(Plain::new("Two", &[], &["SECOND"])));
    let sink = graph.add(Box::new(Plain::new("Sink", &["IN"], &[])));
    graph.connect(port(&one, "FIRST"), port(&sink, "IN"));
    graph.connect(port(&two, "SECOND"), port(&sink, "IN"));
    assert_eq!(
        graph.get(&sink).unwrap().input_source("IN"),
        Some(&port(&two, "SECOND"))
    );
    assert_eq!(
        graph.get(&two).unwrap().output_destinations("SECOND"),
        Some(&[port(&sink, "IN")][..])
    );
    assert_eq!(
        graph.get(&one).unwrap().output_destinations("FIRST"),
        Some(&[port(&sink, "IN")][..])
    );
}

#[test]
fn connect_clears_the_first_node_that_feeds_the_destination() {
    let mut first = Plain::new("Mix", &["INPUT_A"], &["OUTPUT_MIX"]);
    first.connect_output("OUTPUT_MIX", port("Mix2", "INPUT_A"));
    first.connect_output("OUTPUT_MIX", port("Mix2", "INPUT_A"));
    let mut second = Plain::new("Mix", &["INPUT_A"], &["OUTPUT_MIX"]);
    second.connect_output("OUTPUT_MIX", port("Mix2", "INPUT_A"));
    let mut graph: Graph = NodeGraph::new();
    let a = graph.add(Box::new(first));
    let b = graph.add(Box::new(second));
    let c = graph.add(mix());
    let d = graph.add(mix());
    assert_eq!(c, "Mix2");
    graph.connect(port(&d, "OUTPUT_MIX"), port(&c, "INPUT_A"));
    assert_eq!(
        graph.get(&a).unwrap().output_destinations("OUTPUT_MIX"),
        Some(&[][..])
    );
    assert_eq!(
        graph.get(&b).unwrap().output_destinations("OUTPUT_MIX"),
        Some(&[port(&c, "INPUT_A")][..])
    );
    assert_eq!(
        graph.get(&d).unwrap().output_destinations("OUTPUT_MIX"),
        Some(&[port(&c, "INPUT_A")][..])
    );
    assert_eq!(
        graph.get(&c).unwrap().input_source("INPUT_A"),
        Some(&port(&d, "OUTPUT_MIX"))
    );
}

#[test]
fn single_source_scenario() {
    let mut graph: Graph = NodeGraph::new();
    let n1 = graph.add(Box::new(MixRgba::new(1.0, blend)));
    let n2 = graph.add(Box::new(MixRgba::new(0.6, blend)));
    let n3 = graph.add(Box::new(MixRgba::new(0.3, blend)));
    assert_eq!(n1, "MixRgba");
    assert_eq!(n2, "MixRgba1");
    assert_eq!(n3, "MixRgba2");
    graph.connect(port(&n1, MixRgba::OUTPUT_MIX), port(&n2, MixRgba::INPUT_A));
    graph.connect(port(&n3, MixRgba::OUTPUT_MIX), port(&n2, MixRgba::INPUT_B));
    graph.connect(port(&n3, MixRgba::OUTPUT_MIX), port(&n2, MixRgba::INPUT_A));
    assert_eq!(
        graph.get(&n2).unwrap().input_source(MixRgba::INPUT_A),
        Some(&port(&n3, MixRgba::OUTPUT_MIX))
    );
    assert_eq!(
        graph.get(&n2).unwrap().input_source(MixRgba::INPUT_B),
        Some(&port(&n3, MixRgba::OUTPUT_MIX))
    );
    assert_eq!(
        graph.get(&n1).unwrap().output_destinations(MixRgba::OUTPUT_MIX),
        Some(&[][..])
    );
    assert_eq!(
        graph.get(&n3).unwrap().output_destinations(MixRgba::OUTPUT_MIX),
        Some(&[port(&n2, MixRgba::INPUT_B), port(&n2, MixRgba::INPUT_A)][..])
    );
    assert_eq!(graph.len(), 3);
}

fn agree_at_both_ends(graph: &Graph, names: &[String]) -> bool {
    for name in names {
        let node = graph.get(name).unwrap();
        let destinations = node.output_destinations("OUTPUT_MIX").unwrap();
        for (i, d) in destinations.iter().enumerate() {
            if destinations[..i].contains(d) {
                return false;
            }
            let other = graph.get(&d.node_name).unwrap();
            if other.input_source(d.slot_name) != Some(&port(name, "OUTPUT_MIX")) {
                return false;
            }
        }
        for slot in ["INPUT_A", "INPUT_B"] {
            if let Some(source) = node.input_source(slot) {
                let other = graph.get(&source.node_name).unwrap();
                if !other.has_connection(source.slot_name, &port(name, slot)) {
                    return false;
                }
            }
        }
    }
    true
}

#[test]
fn connections_agree_at_both_ends_after_every_connect() {
    let mut graph: Graph = NodeGraph::new();
    let mut names = Vec::new();
    for i in 0..5 {
        if i % 2 == 0 {
            names.push(graph.add(Box::new(MixRgba::new(0.5, blend))));
        } else {
            names.push(graph.add(Box::new(AlphaOver::new(0.5, blend))));
        }
    }
    assert!(agree_at_both_ends(&graph, &names));
    let mut seed: u32 = 12345;
    for _ in 0..200 {
        seed = seed.wrapping_mul(1103515245).wrapping_add(12345);
        let f = ((seed >> 16) % 5) as usize;
        seed = seed.wrapping_mul(1103515245).wrapping_add(12345);
        let t = ((seed >> 16) % 5) as usize;
        seed = seed.wrapping_mul(1103515245).wrapping_add(12345);
        let slot = if (seed >> 16) % 2 == 0 { "INPUT_A" } else { "INPUT_B" };
        graph.connect(port(&names[f], "OUTPUT_MIX"), port(&names[t], slot));
        assert_eq!(
            graph.get(&names[t]).unwrap().input_source(slot),
            Some(&port(&names[f], "OUTPUT_MIX"))
        );
        assert!(agree_at_both_ends(&graph, &names));
        assert_eq!(graph.len(), 5);
    }
}
