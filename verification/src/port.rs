//! Ports: the endpoints of a connection.

use vstd::prelude::*;
use vstd::std_specs::cmp::PartialEqSpecImpl;
use crate::text::str_eq;

verus! {

/// What a port is: the name of a node instance and the name of one of its
/// slots.
pub struct PortView {
    pub node_name: Seq<char>,
    pub slot_name: Seq<char>,
}

/// One end of a connection in a node graph. A port names a slot of a node;
/// it does not by itself say that anything is connected there.
#[derive(Debug, Hash)]
pub struct Port {
    pub node_name: String,
    pub slot_name: &'static str,
}

impl View for Port {
    type V = PortView;

    open spec fn view(&self) -> PortView {
        PortView { node_name: self.node_name@, slot_name: self.slot_name@ }
    }
}

impl Port {
    /// Whether the two ports name the same slot of the same node.
    pub fn same(&self, other: &Port) -> (r: bool)
        ensures
            r == (self@ == other@),
    {
        self.node_name == other.node_name && str_eq(self.slot_name, other.slot_name)
    }
}

impl Clone for Port {
    fn clone(&self) -> (r: Self)
        ensures
            r@ == self@,
    {
        Port { node_name: self.node_name.clone(), slot_name: self.slot_name }
    }
}

impl PartialEq for Port {
    fn eq(&self, other: &Self) -> (r: bool) {
        self.same(other)
    }
}

impl PartialEqSpecImpl for Port {
    open spec fn obeys_eq_spec() -> bool {
        true
    }

    open spec fn eq_spec(&self, other: &Self) -> bool {
        self@ == other@
    }
}

impl Eq for Port {

}

/// The ports of a sequence, each taken by its view.
pub open spec fn port_views(ports: Seq<Port>) -> Seq<PortView> {
    ports.map_values(|p: Port| p@)
}

/// The source of an input slot, taken by its view.
pub open spec fn source_view(source: Option<Port>) -> Option<PortView> {
    match source {
        Some(p) => Some(p@),
        None => None,
    }
}

/// `ports` with every occurrence of `port` taken out, the others in their
/// order.
pub open spec fn without(ports: Seq<PortView>, port: PortView) -> Seq<PortView> {
    ports.filter(differs_from(port))
}

/// The test that a port is another one than `port`.
pub open spec fn differs_from(port: PortView) -> spec_fn(PortView) -> bool {
    |p: PortView| p != port
}

/// Taking out a port that does not occur changes nothing.
pub proof fn lemma_without_absent(ports: Seq<PortView>, port: PortView)
    requires
        !ports.contains(port),
    ensures
        without(ports, port) == ports,
    decreases ports.len(),
{
    reveal(Seq::filter);
    if ports.len() > 0 {
        let front = ports.drop_last();
        assert(ports.last() == ports[ports.len() - 1]);
        assert forall|i: int| 0 <= i < front.len() implies front[i] != port by {
            assert(front[i] == ports[i]);
        }
        lemma_without_absent(front, port);
        assert(without(ports, port) =~= ports);
    }
}

/// After a port was taken out it no longer occurs, and every other port
/// occurs as before.
pub proof fn lemma_without_contains(ports: Seq<PortView>, port: PortView, other: PortView)
    ensures
        without(ports, port).contains(other) <==> (ports.contains(other) && other != port),
{
    let keep = differs_from(port);
    if without(ports, port).contains(other) {
        ports.lemma_filter_contains_rev(keep, other);
        let i = without(ports, port).index_of(other);
        ports.lemma_filter_pred(keep, i);
    }
    if ports.contains(other) && other != port {
        let i = ports.index_of(other);
        ports.lemma_filter_contains(keep, i);
    }
}

/// Where no port occurs twice, none does after one was taken out.
pub proof fn lemma_without_distinct(ports: Seq<PortView>, port: PortView)
    requires
        ports.no_duplicates(),
    ensures
        without(ports, port).no_duplicates(),
    decreases ports.len(),
{
    reveal(Seq::filter);
    if ports.len() > 0 {
        let front = ports.drop_last();
        let last = ports.last();
        assert forall|i: int, j: int| 0 <= i < j < front.len() implies front[i] != front[j] by {
            assert(front[i] == ports[i] && front[j] == ports[j]);
        }
        lemma_without_distinct(front, port);
        if last != port {
            if without(front, port).contains(last) {
                front.lemma_filter_contains_rev(differs_from(port), last);
                let i = front.index_of(last);
                assert(ports[i] == ports[ports.len() - 1]);
            }
            assert(without(ports, port) =~= without(front, port).push(last));
        }
    }
}

/// Whether `port` occurs in `ports`.
pub fn contains_port(ports: &[Port], port: &Port) -> (r: bool)
    ensures
        r == port_views(ports@).contains(port@),
{
    let mut i: usize = 0;
    while i < ports.len()
        invariant
            i <= ports@.len(),
            forall|j: int| 0 <= j < i ==> ports@[j]@ != port@,
        decreases ports@.len() - i,
    {
        if ports[i].same(port) {
            assert(port_views(ports@)[i as int] == port@);
            return true;
        }
        i += 1;
    }
    false
}

/// Takes every occurrence of `port` out of `ports` and keeps the others in
/// their order.
pub fn remove_port(ports: &mut Vec<Port>, port: &Port)
    ensures
        port_views(final(ports)@) == without(port_views(old(ports)@), port@),
{
    let ghost before = ports@;
    let ghost mut k: int = 0;
    let mut i: usize = 0;
    proof {
        reveal(Seq::filter);
        assert(port_views(ports@.take(0)) =~= without(port_views(before.take(0)), port@));
        assert(ports@.skip(0) =~= before.skip(0));
    }
    while i < ports.len()
        invariant
            0 <= i <= k <= before.len(),
            ports@.len() == i + (before.len() - k),
            port_views(ports@.take(i as int)) == without(port_views(before.take(k)), port@),
            ports@.skip(i as int) == before.skip(k),
        decreases before.len() - k,
    {
        let ghost current = ports@;
        proof {
            reveal(Seq::filter);
            assert(current[i as int] == current.skip(i as int)[0]);
            assert(before[k] == before.skip(k)[0]);
            let seen = port_views(before.take(k + 1));
            assert(seen.drop_last() =~= port_views(before.take(k)));
            assert(seen.last() == before[k]@);
        }
        if ports[i].same(port) {
            ports.remove(i);
            proof {
                assert(ports@.take(i as int) =~= current.take(i as int));
                let tail = ports@.skip(i as int);
                let rest = before.skip(k + 1);
                assert forall|j: int| 0 <= j < tail.len() implies tail[j] == rest[j] by {
                    assert(current.skip(i as int)[j + 1] == before.skip(k)[j + 1]);
                }
                assert(tail =~= rest);
            }
        } else {
            proof {
                assert(port_views(current.take(i + 1)) =~= port_views(current.take(i as int)).push(
                    current[i as int]@,
                ));
                let tail = current.skip(i + 1);
                let rest = before.skip(k + 1);
                assert forall|j: int| 0 <= j < tail.len() implies tail[j] == rest[j] by {
                    assert(current.skip(i as int)[j + 1] == before.skip(k)[j + 1]);
                }
                assert(tail =~= rest);
            }
            i += 1;
        }
        proof {
            k = k + 1;
        }
    }
    proof {
        assert(ports@.take(i as int) =~= ports@);
        assert(before.take(k) =~= before);
    }
}

} // verus!
