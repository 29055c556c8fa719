//! The mathematical model of the netlist graph: what the graph is and what
//! each operation makes of it.

use vstd::prelude::*;

use crate::data::component::{count_ports, Component, PortType};
use crate::data::free_ids::is_least;
use crate::data::subnet::SubnetState;
use crate::data::Connection;

verus! {

/// Whether the node key of subnet `id` is a machine word.
pub open spec fn subnet_fits(id: usize) -> bool {
    2 * id <= usize::MAX
}

/// Whether the node key of component `id` is a machine word.
pub open spec fn component_fits(id: usize) -> bool {
    2 * id + 1 <= usize::MAX
}

/// The node key of subnet `id`.
pub open spec fn subnet_key(id: usize) -> usize
    recommends
        subnet_fits(id),
{
    (2 * id) as usize
}

/// The node key of component `id`.
pub open spec fn component_key(id: usize) -> usize
    recommends
        component_fits(id),
{
    (2 * id + 1) as usize
}

/// The mathematical model of the netlist graph.
pub struct Netlist<C> {
    /// The live components by identifier.
    pub components: Map<usize, C>,
    /// The component identifiers that were freed and not handed out again.
    pub free: Set<usize>,
    /// The values of the live subnets by identifier.
    pub subnets: Map<usize, SubnetState>,
    /// The adjacency structure: from a node key to the connections that
    /// leave the node.
    pub edges: Map<usize, Set<Connection>>,
}

impl<C> Netlist<C> {
    /// The graph without components, subnets or edges.
    pub open spec fn empty() -> Netlist<C> {
        Netlist {
            components: Map::empty(),
            free: Set::empty(),
            subnets: Map::empty(),
            edges: Map::empty(),
        }
    }

    /// Whether `id` names a live or a freed component.
    pub open spec fn known(self, id: usize) -> bool {
        self.components.contains_key(id) || self.free.contains(id)
    }

    /// No identifier is live and free at once, the live and the freed
    /// identifiers together are an initial segment of the numbers, and every
    /// node key is a machine word.
    pub open spec fn wf(self) -> bool {
        &&& self.components.dom().finite()
        &&& self.free.finite()
        &&& forall|id: usize|
            !(#[trigger] self.components.contains_key(id) && self.free.contains(id))
        &&& forall|id: usize|
            #![trigger self.components.contains_key(id)]
            #![trigger self.free.contains(id)]
            self.known(id) <==> id < self.components.len() + self.free.len()
        &&& forall|id: usize|
            #![trigger self.components.contains_key(id)]
            #![trigger self.free.contains(id)]
            self.known(id) ==> component_fits(id)
        &&& forall|id: usize|
            #![trigger self.subnets.contains_key(id)]
            self.subnets.contains_key(id) ==> subnet_fits(id)
    }

    /// Whether `id` is the identifier that the next new component gets: the
    /// smallest freed one, or the number of live components where none is
    /// free.
    pub open spec fn allocates(self, id: usize) -> bool {
        if self.free == Set::<usize>::empty() {
            id == self.components.len()
        } else {
            is_least(self.free, id)
        }
    }

    /// Whether the next new component can get an identifier whose node key
    /// is a machine word.
    pub open spec fn has_room(self) -> bool {
        self.free == Set::<usize>::empty() ==> 2 * self.components.len() + 1 <= usize::MAX
    }

    /// The connections that leave the node `key`.
    pub open spec fn targets(self, key: usize) -> Set<Connection> {
        if self.edges.contains_key(key) {
            self.edges[key]
        } else {
            Set::empty()
        }
    }

    /// The graph with the edge from node `key` to `conn`.
    pub open spec fn with_edge(self, key: usize, conn: Connection) -> Netlist<C> {
        Netlist { edges: self.edges.insert(key, self.targets(key).insert(conn)), ..self }
    }

    /// The graph without the edge from node `key` to `conn`. A node that has
    /// an edge set keeps it, even an empty one.
    pub open spec fn without_edge(self, key: usize, conn: Connection) -> Netlist<C> {
        if self.edges.contains_key(key) {
            Netlist { edges: self.edges.insert(key, self.edges[key].remove(conn)), ..self }
        } else {
            self
        }
    }

    /// The graph with the new subnet `id`, which nothing drives yet.
    pub open spec fn with_subnet(self, id: usize) -> Netlist<C> {
        Netlist { subnets: self.subnets.insert(id, SubnetState::Floating), ..self }
    }

    /// The node keys of the live subnets.
    pub open spec fn subnet_nodes(self) -> Set<usize> {
        Set::new(
            |key: usize|
                exists|id: usize| #[trigger] self.subnets.contains_key(id) && key == subnet_key(id),
        )
    }

    /// The node keys of the live components.
    pub open spec fn component_nodes(self) -> Set<usize> {
        Set::new(
            |key: usize|
                exists|id: usize|
                    #[trigger] self.components.contains_key(id) && key == component_key(id),
        )
    }

    /// The graph without the edge set of the node `key`.
    pub open spec fn without_node(self, key: usize) -> Netlist<C> {
        Netlist { edges: self.edges.remove(key), ..self }
    }

    /// The graph in which the edge sets of the nodes in `nodes` have lost
    /// the connections in `gone`. Every node that has an edge set keeps it.
    pub open spec fn without_targets(self, nodes: Set<usize>, gone: Set<Connection>) -> Netlist<C> {
        Netlist {
            edges: Map::new(
                |key: usize| self.edges.contains_key(key),
                |key: usize|
                    if nodes.contains(key) {
                        self.edges[key].difference(gone)
                    } else {
                        self.edges[key]
                    },
            ),
            ..self
        }
    }

    /// The graph after the removal of the live subnet `id`: the subnet and
    /// the edge set of its node are gone, and no live component's node
    /// leads to it any more.
    pub open spec fn without_subnet(self, id: usize) -> Netlist<C> {
        (Netlist { subnets: self.subnets.remove(id), ..self }).without_node(
            subnet_key(id),
        ).without_targets(self.component_nodes(), set![Connection::Subnet(subnet_key(id))])
    }
}

/// Whether `list` spells out the adjacency structure `edges`: it holds
/// every node that has an edge set, once, with the connections that leave
/// the node, each once.
pub open spec fn lists(
    list: Seq<(usize, Vec<Connection>)>,
    edges: Map<usize, Set<Connection>>,
) -> bool {
    &&& forall|i: int|
        0 <= i < list.len() ==> {
            &&& edges.contains_key((#[trigger] list[i]).0)
            &&& list[i].1@.to_set() == edges[list[i].0]
            &&& list[i].1@.no_duplicates()
        }
    &&& forall|i: int, j: int|
        0 <= i < j < list.len() ==> (#[trigger] list[i]).0 != (#[trigger] list[j]).0
    &&& forall|key: usize| #[trigger]
        edges.contains_key(key) ==> exists|i: int|
            0 <= i < list.len() && (#[trigger] list[i]).0 == key
}

/// Whether every subnet that `slots` names has a node key that is a machine
/// word.
pub open spec fn slots_fit(slots: Seq<Option<usize>>) -> bool {
    forall|port: int|
        0 <= port < slots.len() && (#[trigger] slots[port]) is Some ==> subnet_fits(slots[port]->0)
}

/// Whether slot `port` of `slots` names the subnet with the node key `key`.
pub open spec fn slot_is(slots: Seq<Option<usize>>, port: int, key: usize) -> bool {
    0 <= port < slots.len() && slots[port] is Some && subnet_key(slots[port]->0) == key
}

/// The edges that wire the input slots `inputs` of the component node
/// `node`, as far as they leave the node `key`: one to each port whose slot
/// names that node.
pub open spec fn input_edges(node: usize, inputs: Seq<Option<usize>>, key: usize) -> Set<
    Connection,
> {
    Set::new(
        |conn: Connection|
            exists|port: int| #[trigger]
                slot_is(inputs, port, key) && conn == Connection::Component(node, port as usize),
    )
}

/// The edges that wire the output slots `outputs`: one to each subnet that
/// a slot names.
pub open spec fn output_edges(outputs: Seq<Option<usize>>) -> Set<Connection> {
    Set::new(
        |conn: Connection|
            exists|port: int, key: usize| #[trigger]
                slot_is(outputs, port, key) && conn == Connection::Subnet(key),
    )
}

/// The connections to the first `inputs` ports of the component node `node`.
pub open spec fn input_ports(node: usize, inputs: nat) -> Set<Connection> {
    Set::new(
        |conn: Connection|
            conn matches Connection::Component(to, port) && to == node && port < inputs,
    )
}

impl<C> Netlist<C> {
    /// The graph with the input slots `inputs` of the component node `node`
    /// wired: every subnet that a slot names leads to the slot's port.
    pub open spec fn with_inputs(self, node: usize, inputs: Seq<Option<usize>>) -> Netlist<C> {
        Netlist {
            edges: Map::new(
                |key: usize|
                    self.edges.contains_key(key) || exists|port: int| #[trigger]
                        slot_is(inputs, port, key),
                |key: usize| self.targets(key).union(input_edges(node, inputs, key)),
            ),
            ..self
        }
    }

    /// The graph in which the component node `node` leads to every subnet
    /// that a slot of `outputs` names.
    pub open spec fn with_output_edges(self, node: usize, outputs: Seq<Option<usize>>) -> Netlist<
        C,
    > {
        Netlist {
            edges: self.edges.insert(node, self.targets(node).union(output_edges(outputs))),
            ..self
        }
    }

    /// The graph with the output slots `outputs` of the component node
    /// `node` wired. A component without output slots gets no edge set.
    pub open spec fn with_outputs(self, node: usize, outputs: Seq<Option<usize>>) -> Netlist<C> {
        if outputs.len() > 0 {
            self.with_output_edges(node, outputs)
        } else {
            self
        }
    }

    /// The graph with `component` as the live component `id`, wired to the
    /// subnets that `inputs` and `outputs` name.
    pub open spec fn with_component(
        self,
        id: usize,
        component: C,
        inputs: Seq<Option<usize>>,
        outputs: Seq<Option<usize>>,
    ) -> Netlist<C> {
        (Netlist {
            components: self.components.insert(id, component),
            free: self.free.remove(id),
            ..self
        }).with_inputs(component_key(id), inputs).with_outputs(component_key(id), outputs)
    }
}

pub(crate) proof fn lemma_with_inputs_none<C>(net: Netlist<C>, node: usize)
    ensures
        net.with_inputs(node, Seq::empty()) == net,
{
    let wired = net.with_inputs(node, Seq::empty());
    assert forall|key: usize| #[trigger]
        wired.edges.contains_key(key) implies net.edges.contains_key(key) && wired.edges[key]
        == net.edges[key] by {
        assert(input_edges(node, Seq::empty(), key) =~= Set::empty());
        assert(net.targets(key).union(Set::empty()) =~= net.targets(key));
    }
    assert(wired.edges =~= net.edges);
}

pub(crate) proof fn lemma_with_inputs_step<C>(
    net: Netlist<C>,
    node: usize,
    inputs: Seq<Option<usize>>,
    port: int,
)
    requires
        0 <= port < inputs.len(),
        port <= usize::MAX,
    ensures
        net.with_inputs(node, inputs.take(port + 1)) == match inputs[port] {
            Some(subnet) => net.with_inputs(node, inputs.take(port)).with_edge(
                subnet_key(subnet),
                Connection::Component(node, port as usize),
            ),
            None => net.with_inputs(node, inputs.take(port)),
        },
{
    let fewer = inputs.take(port);
    let more = inputs.take(port + 1);
    let before = net.with_inputs(node, fewer);
    let after = net.with_inputs(node, more);
    assert forall|p: int, key: usize| slot_is(more, p, key) <==> slot_is(fewer, p, key) || (p
        == port && slot_is(inputs, port, key)) by {}
    match inputs[port] {
        Some(subnet) => {
            let source = subnet_key(subnet);
            let conn = Connection::Component(node, port as usize);
            let target = before.with_edge(source, conn);
            assert(slot_is(more, port, source));
            assert forall|key: usize| after.edges.contains_key(key) <==> target.edges.contains_key(
                key,
            ) by {
                if after.edges.contains_key(key) && !net.edges.contains_key(key) {
                    let p = choose|p: int| #[trigger] slot_is(more, p, key);
                    assert(slot_is(fewer, p, key) || key == source);
                }
                if before.edges.contains_key(key) && !net.edges.contains_key(key) {
                    let p = choose|p: int| #[trigger] slot_is(fewer, p, key);
                    assert(slot_is(more, p, key));
                }
            }
            assert forall|key: usize| #[trigger]
                after.edges.contains_key(key) implies after.edges[key] == target.edges[key] by {
                let wired = input_edges(node, more, key);
                let known = input_edges(node, fewer, key);
                assert forall|c: Connection| wired.contains(c) <==> known.contains(c) || (key
                    == source && c == conn) by {
                    if wired.contains(c) {
                        let p = choose|p: int| #[trigger]
                            slot_is(more, p, key) && c == Connection::Component(node, p as usize);
                        assert(slot_is(fewer, p, key) || p == port);
                    }
                    if known.contains(c) {
                        let p = choose|p: int| #[trigger]
                            slot_is(fewer, p, key) && c == Connection::Component(node, p as usize);
                        assert(slot_is(more, p, key));
                    }
                }
                if key == source {
                    assert(net.targets(key).union(wired) =~= net.targets(key).union(known).insert(
                        conn,
                    ));
                    assert(before.targets(key) == net.targets(key).union(known)) by {
                        if !before.edges.contains_key(key) {
                            assert(!net.edges.contains_key(key));
                            assert forall|c: Connection| !known.contains(c) by {
                                if known.contains(c) {
                                    let p = choose|p: int| #[trigger]
                                        slot_is(fewer, p, key) && c == Connection::Component(
                                            node,
                                            p as usize,
                                        );
                                }
                            }
                            assert(net.targets(key).union(known) =~= Set::empty());
                        }
                    }
                } else {
                    assert(wired =~= known);
                }
            }
            assert(after.edges =~= target.edges);
        },
        None => {
            assert forall|key: usize| after.edges.contains_key(key) <==> before.edges.contains_key(
                key,
            ) by {
                if after.edges.contains_key(key) && !net.edges.contains_key(key) {
                    let p = choose|p: int| #[trigger] slot_is(more, p, key);
                    assert(slot_is(fewer, p, key));
                }
                if before.edges.contains_key(key) && !net.edges.contains_key(key) {
                    let p = choose|p: int| #[trigger] slot_is(fewer, p, key);
                    assert(slot_is(more, p, key));
                }
            }
            assert forall|key: usize| #[trigger]
                after.edges.contains_key(key) implies after.edges[key] == before.edges[key] by {
                let wired = input_edges(node, more, key);
                let known = input_edges(node, fewer, key);
                assert forall|c: Connection| wired.contains(c) <==> known.contains(c) by {
                    if wired.contains(c) {
                        let p = choose|p: int| #[trigger]
                            slot_is(more, p, key) && c == Connection::Component(node, p as usize);
                        assert(slot_is(fewer, p, key));
                    }
                    if known.contains(c) {
                        let p = choose|p: int| #[trigger]
                            slot_is(fewer, p, key) && c == Connection::Component(node, p as usize);
                        assert(slot_is(more, p, key));
                    }
                }
                assert(wired =~= known);
            }
            assert(after.edges =~= before.edges);
        },
    }
}

pub(crate) proof fn lemma_with_output_edges_step<C>(
    net: Netlist<C>,
    node: usize,
    outputs: Seq<Option<usize>>,
    port: int,
)
    requires
        0 <= port < outputs.len(),
    ensures
        net.with_output_edges(node, outputs.take(port + 1)) == match outputs[port] {
            Some(subnet) => net.with_output_edges(node, outputs.take(port)).with_edge(
                node,
                Connection::Subnet(subnet_key(subnet)),
            ),
            None => net.with_output_edges(node, outputs.take(port)),
        },
{
    let fewer = outputs.take(port);
    let more = outputs.take(port + 1);
    let before = net.with_output_edges(node, fewer);
    let after = net.with_output_edges(node, more);
    let wired = output_edges(more);
    let known = output_edges(fewer);
    assert forall|p: int, key: usize| slot_is(more, p, key) <==> slot_is(fewer, p, key) || (p
        == port && slot_is(outputs, port, key)) by {}
    match outputs[port] {
        Some(subnet) => {
            let conn = Connection::Subnet(subnet_key(subnet));
            assert(slot_is(more, port, subnet_key(subnet)));
            assert forall|c: Connection| wired.contains(c) <==> known.contains(c) || c == conn by {
                if wired.contains(c) {
                    let (p, key) = choose|p: int, key: usize| #[trigger]
                        slot_is(more, p, key) && c == Connection::Subnet(key);
                    assert(slot_is(fewer, p, key) || p == port);
                }
                if known.contains(c) {
                    let (p, key) = choose|p: int, key: usize| #[trigger]
                        slot_is(fewer, p, key) && c == Connection::Subnet(key);
                    assert(slot_is(more, p, key));
                }
            }
            assert(net.targets(node).union(wired) =~= net.targets(node).union(known).insert(conn));
            assert(after.edges =~= before.with_edge(node, conn).edges);
        },
        None => {
            assert forall|c: Connection| wired.contains(c) <==> known.contains(c) by {
                if wired.contains(c) {
                    let (p, key) = choose|p: int, key: usize| #[trigger]
                        slot_is(more, p, key) && c == Connection::Subnet(key);
                    assert(slot_is(fewer, p, key));
                }
                if known.contains(c) {
                    let (p, key) = choose|p: int, key: usize| #[trigger]
                        slot_is(fewer, p, key) && c == Connection::Subnet(key);
                    assert(slot_is(more, p, key));
                }
            }
            assert(wired =~= known);
        },
    }
}

impl<C: Component> Netlist<C> {
    /// The number of input ports of the live component `id`.
    pub open spec fn input_count(self, id: usize) -> nat {
        count_ports(self.components[id].port_types(), PortType::Input)
    }

    /// The graph after the removal of the live component `id`: the
    /// component and the edge set of its node are gone, its identifier is
    /// free, and no live subnet's node leads to one of its input ports any
    /// more.
    pub open spec fn without_component(self, id: usize) -> Netlist<C> {
        (Netlist {
            components: self.components.remove(id),
            free: self.free.insert(id),
            ..self
        }).without_node(component_key(id)).without_targets(
            self.subnet_nodes(),
            input_ports(component_key(id), self.input_count(id)),
        )
    }
}

pub(crate) proof fn lemma_without_targets_none<C>(net: Netlist<C>, gone: Set<Connection>)
    ensures
        net.without_targets(Set::empty(), gone) == net,
{
    assert(net.without_targets(Set::empty(), gone).edges =~= net.edges);
}

pub(crate) proof fn lemma_without_targets_more<C>(
    net: Netlist<C>,
    nodes: Set<usize>,
    key: usize,
    gone: Set<Connection>,
)
    ensures
        net.without_targets(nodes, gone).without_targets(set![key], gone) == net.without_targets(
            nodes.insert(key),
            gone,
        ),
{
    let once = net.without_targets(nodes, gone);
    let twice = once.without_targets(set![key], gone);
    let both = net.without_targets(nodes.insert(key), gone);
    assert forall|k: usize| #[trigger] twice.edges.contains_key(k) implies twice.edges[k]
        == both.edges[k] by {
        assert(net.edges[k].difference(gone).difference(gone) =~= net.edges[k].difference(gone));
    }
    assert(twice.edges =~= both.edges);
}

pub(crate) proof fn lemma_without_edge_is_without_targets<C>(
    net: Netlist<C>,
    key: usize,
    conn: Connection,
)
    ensures
        net.without_edge(key, conn) == net.without_targets(set![key], set![conn]),
{
    let one = net.without_edge(key, conn);
    let other = net.without_targets(set![key], set![conn]);
    assert forall|k: usize| #[trigger] one.edges.contains_key(k) implies one.edges[k]
        == other.edges[k] by {
        if k == key {
            assert(net.edges[k].remove(conn) =~= net.edges[k].difference(set![conn]));
        }
    }
    assert(one.edges =~= other.edges);
}

pub(crate) proof fn lemma_input_ports_step<C>(net: Netlist<C>, key: usize, node: usize, port: usize)
    ensures
        net.without_targets(set![key], input_ports(node, port as nat)).without_edge(
            key,
            Connection::Component(node, port),
        ) == net.without_targets(set![key], input_ports(node, (port + 1) as nat)),
{
    let conn = Connection::Component(node, port);
    let before = net.without_targets(set![key], input_ports(node, port as nat));
    let one = before.without_edge(key, conn);
    let other = net.without_targets(set![key], input_ports(node, (port + 1) as nat));
    assert forall|k: usize| #[trigger] one.edges.contains_key(k) implies one.edges[k]
        == other.edges[k] by {
        if k == key {
            assert(net.edges[k].difference(input_ports(node, port as nat)).remove(conn)
                =~= net.edges[k].difference(input_ports(node, (port + 1) as nat)));
        }
    }
    assert(one.edges =~= other.edges);
}

} // verus!
