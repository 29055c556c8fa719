//! What holds of the operations on the netlist graph: how identifiers are
//! handed out, what a link and its removal leave behind, and that the
//! removal of a component or a subnet leaves nothing that refers to it.

use vstd::prelude::*;

use crate::data::component::{count_ports, Component, PortType};
use crate::data::free_ids::is_least;
use crate::data::netlist::{
    component_fits, component_key, input_edges, input_ports, output_edges, slot_is, subnet_fits,
    subnet_key, Netlist,
};
use crate::data::Connection;

verus! {

impl<C> Netlist<C> {
    /// Whether anything in the adjacency structure refers to the component
    /// `id`: its node has an edge set, or some edge leads to one of its
    /// ports.
    pub open spec fn mentions_component(self, id: usize) -> bool {
        ||| self.edges.contains_key(component_key(id))
        ||| exists|key: usize, port: usize|
            self.edges.contains_key(key) && #[trigger] self.edges[key].contains(
                Connection::Component(component_key(id), port),
            )
    }

    /// Whether anything in the adjacency structure refers to the subnet
    /// `id`: its node has an edge set, or some edge leads to it.
    pub open spec fn mentions_subnet(self, id: usize) -> bool {
        ||| self.edges.contains_key(subnet_key(id))
        ||| exists|key: usize| #[trigger]
            self.edges.contains_key(key) && self.edges[key].contains(
                Connection::Subnet(subnet_key(id)),
            )
    }

    /// Whether every edge to the subnet `id` leaves the node of a live
    /// component or the node of the subnet itself.
    pub open spec fn subnet_anchored(self, id: usize) -> bool {
        forall|key: usize| #[trigger]
            self.edges.contains_key(key) && self.edges[key].contains(
                Connection::Subnet(subnet_key(id)),
            ) ==> key == subnet_key(id) || self.component_nodes().contains(key)
    }
}

impl<C: Component> Netlist<C> {
    /// Whether every edge to a port of the component `id` leads to one of
    /// its input ports and leaves the node of a live subnet, or leaves the
    /// node of the component itself.
    pub open spec fn component_anchored(self, id: usize) -> bool {
        forall|key: usize, port: usize|
            self.edges.contains_key(key) && #[trigger] self.edges[key].contains(
                Connection::Component(component_key(id), port),
            ) ==> key == component_key(id) || (self.subnet_nodes().contains(key) && port
                < self.input_count(id))
    }
}

/// An edit of the adjacency structure alone leaves a valid graph valid.
pub proof fn lemma_edge_edits_keep_valid<C>(
    net: Netlist<C>,
    key: usize,
    conn: Connection,
    nodes: Set<usize>,
    gone: Set<Connection>,
)
    requires
        net.wf(),
    ensures
        net.with_edge(key, conn).wf(),
        net.without_edge(key, conn).wf(),
        net.without_node(key).wf(),
        net.without_targets(nodes, gone).wf(),
{
    let edited = net.with_edge(key, conn);
    assert forall|id: usize| edited.known(id) == net.known(id) by {}
    let edited = net.without_edge(key, conn);
    assert forall|id: usize| edited.known(id) == net.known(id) by {}
    let edited = net.without_node(key);
    assert forall|id: usize| edited.known(id) == net.known(id) by {}
    let edited = net.without_targets(nodes, gone);
    assert forall|id: usize| edited.known(id) == net.known(id) by {}
}

/// A valid graph stays valid when a subnet whose node key is a machine word
/// is added, and when a subnet is removed.
pub proof fn lemma_subnet_edits_keep_valid<C>(net: Netlist<C>, id: usize)
    requires
        net.wf(),
    ensures
        subnet_fits(id) ==> net.with_subnet(id).wf(),
        net.without_subnet(id).wf(),
{
    let more = net.with_subnet(id);
    assert forall|other: usize| more.known(other) == net.known(other) by {}
    let fewer = net.without_subnet(id);
    assert forall|other: usize| fewer.known(other) == net.known(other) by {}
}

/// A valid graph stays valid when a live component is removed: its
/// identifier moves from the live to the free ones.
pub proof fn lemma_remove_component_keeps_valid<C: Component>(net: Netlist<C>, id: usize)
    requires
        net.wf(),
        net.components.contains_key(id),
    ensures
        net.without_component(id).wf(),
{
    let after = net.without_component(id);
    assert(after.components == net.components.remove(id));
    assert(after.free == net.free.insert(id));
    assert(net.known(id));
    assert(!net.free.contains(id));
    assert forall|other: usize| after.known(other) == net.known(other) by {}
}

/// A valid graph with room stays valid when a component is added under the
/// identifier that is next.
pub proof fn lemma_add_component_keeps_valid<C>(
    net: Netlist<C>,
    id: usize,
    component: C,
    inputs: Seq<Option<usize>>,
    outputs: Seq<Option<usize>>,
)
    requires
        net.wf(),
        net.has_room(),
        net.allocates(id),
    ensures
        component_fits(id),
        net.with_component(id, component, inputs, outputs).wf(),
{
    lemma_allocation_reuses(net, id);
    let after = net.with_component(id, component, inputs, outputs);
    assert(after.components == net.components.insert(id, component));
    assert(after.free == net.free.remove(id));
    assert(after.subnets == net.subnets);
    if net.free == Set::<usize>::empty() {
        assert(net.free.len() == 0);
        assert(!net.known(id));
        assert(after.free =~= net.free);
    } else {
        assert(net.free.contains(id));
        assert(net.known(id));
    }
    assert forall|other: usize| after.known(other) <==> net.known(other) || other == id by {}
}

/// Only one identifier can be the next to be handed out.
pub proof fn lemma_allocation_unique<C>(net: Netlist<C>, a: usize, b: usize)
    requires
        net.allocates(a),
        net.allocates(b),
    ensures
        a == b,
{
}

/// Freed identifiers are used again, smallest first, before a new one is
/// made: the next identifier is not in use; while identifiers are free it is
/// the smallest of them; and where none is free it is larger than every
/// identifier in use.
pub proof fn lemma_allocation_reuses<C>(net: Netlist<C>, id: usize)
    requires
        net.wf(),
        net.allocates(id),
    ensures
        !net.components.contains_key(id),
        net.free != Set::<usize>::empty() ==> is_least(net.free, id),
        net.free == Set::<usize>::empty() ==> forall|other: usize| #[trigger]
            net.components.contains_key(other) ==> other < id,
{
    if net.free == Set::<usize>::empty() {
        assert(net.free.len() == 0);
        assert forall|other: usize| #[trigger] net.components.contains_key(other) implies other
            < id by {
            assert(net.known(other));
        }
        assert(!net.known(id));
    }
}

/// Two identifiers that were freed come back in order: in a graph where
/// exactly `low` and `high` are free, the next component gets `low` and the
/// one after it gets `high`, however the first is wired.
pub proof fn lemma_freed_identifiers_return_in_order<C>(
    net: Netlist<C>,
    low: usize,
    high: usize,
    first: usize,
    second: usize,
    component: C,
    inputs: Seq<Option<usize>>,
    outputs: Seq<Option<usize>>,
)
    requires
        low < high,
        net.free == set![low, high],
        net.allocates(first),
        net.with_component(first, component, inputs, outputs).allocates(second),
    ensures
        first == low,
        second == high,
{
    assert(net.free.contains(low));
    assert(net.free.contains(high));
    assert(first == low);
    let then = net.with_component(first, component, inputs, outputs);
    assert(then.free == net.free.remove(low));
    assert(then.free.contains(high));
    assert(then.free =~= set![high]);
}

/// An edge that was recorded is there: the edge set of its source holds it
/// beside what it held before, and no other edge set changes.
pub proof fn lemma_with_edge_records<C>(net: Netlist<C>, key: usize, conn: Connection)
    ensures
        net.with_edge(key, conn).targets(key) == net.targets(key).insert(conn),
        net.with_edge(key, conn).targets(key).contains(conn),
        forall|other: usize|
            other != key ==> #[trigger] net.with_edge(key, conn).targets(other) == net.targets(
                other,
            ),
{
}

/// Linking is idempotent: an edge that is recorded a second time changes
/// nothing.
pub proof fn lemma_with_edge_idempotent<C>(net: Netlist<C>, key: usize, conn: Connection)
    ensures
        net.with_edge(key, conn).with_edge(key, conn) == net.with_edge(key, conn),
{
    let once = net.with_edge(key, conn);
    assert(once.targets(key).insert(conn) =~= once.targets(key));
    assert(once.with_edge(key, conn).edges =~= once.edges);
}

/// After the edge from a component to a subnet and the edge from the subnet
/// to a port of the component were dropped, neither is there, whatever was
/// there before.
pub proof fn lemma_unlink_removes_both<C>(
    net: Netlist<C>,
    component: usize,
    port: usize,
    subnet: usize,
)
    ensures
        ({
            let outward = Connection::Subnet(subnet_key(subnet));
            let inward = Connection::Component(component_key(component), port);
            let after = net.without_edge(component_key(component), outward).without_edge(
                subnet_key(subnet),
                inward,
            );
            &&& !after.targets(component_key(component)).contains(outward)
            &&& !after.targets(subnet_key(subnet)).contains(inward)
            &&& after.edges.dom() == net.edges.dom()
        }),
{
    let outward = Connection::Subnet(subnet_key(subnet));
    let inward = Connection::Component(component_key(component), port);
    let once = net.without_edge(component_key(component), outward);
    let after = once.without_edge(subnet_key(subnet), inward);
    assert(once.edges.dom() =~= net.edges.dom());
    assert(after.edges.dom() =~= once.edges.dom());
}

/// Linking and then unlinking leaves no trace of the link: after the edge
/// in either direction was recorded, dropping both directions leaves
/// neither.
pub proof fn lemma_link_then_unlink<C>(
    net: Netlist<C>,
    component: usize,
    port: usize,
    subnet: usize,
    direction: bool,
)
    ensures
        ({
            let outward = Connection::Subnet(subnet_key(subnet));
            let inward = Connection::Component(component_key(component), port);
            let linked = if direction {
                net.with_edge(component_key(component), outward)
            } else {
                net.with_edge(subnet_key(subnet), inward)
            };
            let after = linked.without_edge(component_key(component), outward).without_edge(
                subnet_key(subnet),
                inward,
            );
            &&& direction ==> linked.targets(component_key(component)).contains(outward)
            &&& !direction ==> linked.targets(subnet_key(subnet)).contains(inward)
            &&& !after.targets(component_key(component)).contains(outward)
            &&& !after.targets(subnet_key(subnet)).contains(inward)
        }),
{
    let outward = Connection::Subnet(subnet_key(subnet));
    let inward = Connection::Component(component_key(component), port);
    let linked = if direction {
        net.with_edge(component_key(component), outward)
    } else {
        net.with_edge(subnet_key(subnet), inward)
    };
    lemma_unlink_removes_both(linked, component, port, subnet);
}

/// The removal of a component leaves nothing that refers to it exactly
/// when every edge to it was within reach of the cascade: at an input port
/// and from the node of a live subnet, or from the component's own node.
pub proof fn lemma_remove_component_purges<C: Component>(net: Netlist<C>, id: usize)
    requires
        net.wf(),
        net.components.contains_key(id),
    ensures
        !net.without_component(id).mentions_component(id) <==> net.component_anchored(id),
{
    let node = component_key(id);
    let after = net.without_component(id);
    let gone = input_ports(node, net.input_count(id));
    assert(!after.edges.contains_key(node));
    if net.component_anchored(id) {
        assert forall|key: usize, port: usize|
            !(after.edges.contains_key(key) && #[trigger] after.edges[key].contains(
                Connection::Component(node, port),
            )) by {
            if after.edges.contains_key(key) && after.edges[key].contains(
                Connection::Component(node, port),
            ) {
                assert(net.edges[key].contains(Connection::Component(node, port)));
                assert(gone.contains(Connection::Component(node, port)));
            }
        }
    } else {
        let (key, port) = choose|key: usize, port: usize|
            net.edges.contains_key(key) && #[trigger] net.edges[key].contains(
                Connection::Component(node, port),
            ) && !(key == node || (net.subnet_nodes().contains(key) && port < net.input_count(
                id,
            )));
        assert(after.edges.contains_key(key));
        if net.subnet_nodes().contains(key) {
            assert(!gone.contains(Connection::Component(node, port)));
        }
        assert(after.edges[key].contains(Connection::Component(node, port)));
    }
}

/// The removal of a subnet leaves nothing that refers to it exactly when
/// every edge to it was within reach of the cascade: from the node of a
/// live component, or from the subnet's own node.
pub proof fn lemma_remove_subnet_purges<C>(net: Netlist<C>, id: usize)
    requires
        net.wf(),
        net.subnets.contains_key(id),
    ensures
        !net.without_subnet(id).mentions_subnet(id) <==> net.subnet_anchored(id),
{
    let node = subnet_key(id);
    let conn = Connection::Subnet(node);
    let after = net.without_subnet(id);
    assert(!after.edges.contains_key(node));
    if net.subnet_anchored(id) {
        assert forall|key: usize|
            !(#[trigger] after.edges.contains_key(key) && after.edges[key].contains(conn)) by {
            if after.edges.contains_key(key) && after.edges[key].contains(conn) {
                assert(net.edges.contains_key(key));
                assert(net.edges[key].contains(conn));
            }
        }
    } else {
        let key = choose|key: usize| #[trigger]
            net.edges.contains_key(key) && net.edges[key].contains(conn) && !(key == node
                || net.component_nodes().contains(key));
        assert(after.edges.contains_key(key));
        assert(after.edges[key].contains(conn));
    }
}

impl<C: Component> Netlist<C> {
    /// Whether `conn` leads to a live subnet.
    pub open spec fn leads_to_subnet(self, conn: Connection) -> bool {
        conn matches Connection::Subnet(to) && self.subnet_nodes().contains(to)
    }

    /// Whether `conn` leads to an input port of a live component.
    pub open spec fn leads_to_input(self, conn: Connection) -> bool {
        conn matches Connection::Component(to, port) && exists|id: usize| #[trigger]
            self.components.contains_key(id) && to == component_key(id) && port
                < self.input_count(id)
    }

    /// Whether the node `key` is the node of a live component and leads to
    /// live subnets only, or the node of a live subnet and leads to input
    /// ports of live components only.
    pub open spec fn joins_live_ends(self, key: usize) -> bool {
        ||| self.component_nodes().contains(key) && forall|conn: Connection| #[trigger]
            self.edges[key].contains(conn) ==> self.leads_to_subnet(conn)
        ||| self.subnet_nodes().contains(key) && forall|conn: Connection| #[trigger]
            self.edges[key].contains(conn) ==> self.leads_to_input(conn)
    }

    /// Whether every edge joins live ends: every node that has an edge set
    /// does.
    pub open spec fn closed(self) -> bool {
        forall|key: usize| #[trigger] self.edges.contains_key(key) ==> self.joins_live_ends(key)
    }

    /// Whether every subnet that `slots` names is live.
    pub open spec fn slots_live(self, slots: Seq<Option<usize>>) -> bool {
        forall|port: int|
            0 <= port < slots.len() && (#[trigger] slots[port]) is Some
                ==> self.subnets.contains_key(slots[port]->0)
    }
}

/// In a valid graph no node is the node of a component and of a subnet,
/// and a node is the node of one identifier only.
pub proof fn lemma_nodes_apart<C>(net: Netlist<C>)
    requires
        net.wf(),
    ensures
        forall|key: usize|
            !(net.component_nodes().contains(key) && net.subnet_nodes().contains(key)),
        forall|id: usize| #[trigger]
            net.components.contains_key(id) <==> net.component_nodes().contains(component_key(id))
                && component_fits(id),
        forall|id: usize| #[trigger]
            net.subnets.contains_key(id) <==> net.subnet_nodes().contains(subnet_key(id))
                && subnet_fits(id),
{
    assert forall|key: usize|
        !(net.component_nodes().contains(key) && net.subnet_nodes().contains(key)) by {
        if net.component_nodes().contains(key) && net.subnet_nodes().contains(key) {
            let c = choose|id: usize| #[trigger]
                net.components.contains_key(id) && key == component_key(id);
            let s = choose|id: usize| #[trigger]
                net.subnets.contains_key(id) && key == subnet_key(id);
            assert(net.known(c));
        }
    }
    assert forall|id: usize| #[trigger]
        net.components.contains_key(id) <==> net.component_nodes().contains(component_key(id))
            && component_fits(id) by {
        if net.components.contains_key(id) {
            assert(net.known(id));
        }
        if net.component_nodes().contains(component_key(id)) && component_fits(id) {
            let c = choose|c: usize| #[trigger]
                net.components.contains_key(c) && component_key(id) == component_key(c);
            assert(net.known(c));
            assert(c == id);
        }
    }
    assert forall|id: usize| #[trigger]
        net.subnets.contains_key(id) <==> net.subnet_nodes().contains(subnet_key(id))
            && subnet_fits(id) by {
        if net.subnet_nodes().contains(subnet_key(id)) && subnet_fits(id) {
            let s = choose|s: usize| #[trigger]
                net.subnets.contains_key(s) && subnet_key(id) == subnet_key(s);
            assert(s == id);
        }
    }
}

/// The graph without components, subnets or edges is valid, and every edge
/// of it joins live ends.
pub proof fn lemma_empty_is_closed<C: Component>()
    ensures
        Netlist::<C>::empty().wf(),
        Netlist::<C>::empty().closed(),
{
    let net = Netlist::<C>::empty();
    assert(net.components.dom() =~= Set::empty());
    assert(net.components.len() == 0);
    assert(net.free.len() == 0);
}

/// Where every edge joins live ends, every edge to a live component or to a
/// live subnet is within reach of the cascade that removes it.
pub proof fn lemma_closed_is_anchored<C: Component>(net: Netlist<C>, id: usize)
    requires
        net.wf(),
        net.closed(),
    ensures
        net.components.contains_key(id) ==> net.component_anchored(id),
        net.subnets.contains_key(id) ==> net.subnet_anchored(id),
{
    lemma_nodes_apart(net);
    if net.components.contains_key(id) {
        assert forall|key: usize, port: usize|
            net.edges.contains_key(key) && #[trigger] net.edges[key].contains(
                Connection::Component(component_key(id), port),
            ) implies key == component_key(id) || (net.subnet_nodes().contains(key) && port
            < net.input_count(id)) by {
            let conn = Connection::Component(component_key(id), port);
            assert(!net.leads_to_subnet(conn));
            assert(net.leads_to_input(conn));
            let other = choose|other: usize| #[trigger]
                net.components.contains_key(other) && component_key(id) == component_key(other)
                    && port < net.input_count(other);
            assert(net.known(other));
            assert(net.known(id));
            assert(other == id);
        }
    }
    if net.subnets.contains_key(id) {
        assert forall|key: usize| #[trigger]
            net.edges.contains_key(key) && net.edges[key].contains(
                Connection::Subnet(subnet_key(id)),
            ) implies key == subnet_key(id) || net.component_nodes().contains(key) by {
            let conn = Connection::Subnet(subnet_key(id));
            assert(!net.leads_to_input(conn));
        }
    }
}

/// Cascade completeness: in a valid graph in which every edge joins live
/// ends, the removal of a live component leaves nothing that refers to it,
/// and every edge of what is left joins live ends.
pub proof fn lemma_remove_component_keeps_closed<C: Component>(
    net: Netlist<C>,
    id: usize,
)
    requires
        net.wf(),
        net.closed(),
        net.components.contains_key(id),
    ensures
        !net.without_component(id).mentions_component(id),
        net.without_component(id).closed(),
{
    lemma_nodes_apart(net);
    lemma_closed_is_anchored(net, id);
    lemma_remove_component_purges(net, id);
    let after = net.without_component(id);
    let node = component_key(id);
    let gone = input_ports(node, net.input_count(id));
    assert(net.known(id));
    assert(after.subnet_nodes() =~= net.subnet_nodes());
    assert forall|key: usize| #[trigger]
        after.edges.contains_key(key) implies after.joins_live_ends(key) by {
        assert(net.edges.contains_key(key) && key != node);
        if net.component_nodes().contains(key) {
            let c = choose|c: usize| #[trigger]
                net.components.contains_key(c) && key == component_key(c);
            assert(net.known(c));
            assert(c != id);
            assert(after.components.contains_key(c));
            assert(after.component_nodes().contains(key));
            assert(after.edges[key] == net.edges[key]);
            assert forall|conn: Connection| #[trigger]
                after.edges[key].contains(conn) implies after.leads_to_subnet(conn) by {
                assert(net.leads_to_subnet(conn));
            }
        } else {
            assert(net.subnet_nodes().contains(key));
            assert(after.edges[key] == net.edges[key].difference(gone));
            assert forall|conn: Connection| #[trigger]
                after.edges[key].contains(conn) implies after.leads_to_input(conn) by {
                assert(net.edges[key].contains(conn));
                assert(net.leads_to_input(conn));
                let c = choose|c: usize| #[trigger]
                    net.components.contains_key(c) && conn->Component_0 == component_key(c)
                        && conn->Component_1 < net.input_count(c);
                assert(net.known(c));
                if c == id {
                    assert(gone.contains(conn));
                }
                assert(after.components.contains_key(c));
                assert(after.input_count(c) == net.input_count(c));
            }
        }
    }
}

/// Cascade completeness: in a valid graph in which every edge joins live
/// ends, the removal of a live subnet leaves nothing that refers to it, and
/// every edge of what is left joins live ends.
pub proof fn lemma_remove_subnet_keeps_closed<C: Component>(net: Netlist<C>, id: usize)
    requires
        net.wf(),
        net.closed(),
        net.subnets.contains_key(id),
    ensures
        !net.without_subnet(id).mentions_subnet(id),
        net.without_subnet(id).closed(),
{
    lemma_nodes_apart(net);
    lemma_closed_is_anchored(net, id);
    lemma_remove_subnet_purges(net, id);
    let after = net.without_subnet(id);
    let node = subnet_key(id);
    let gone = set![Connection::Subnet(node)];
    assert(after.component_nodes() =~= net.component_nodes());
    assert forall|key: usize| #[trigger]
        after.edges.contains_key(key) implies after.joins_live_ends(key) by {
        assert(net.edges.contains_key(key) && key != node);
        if net.component_nodes().contains(key) {
            assert(after.edges[key] == net.edges[key].difference(gone));
            assert forall|conn: Connection| #[trigger]
                after.edges[key].contains(conn) implies after.leads_to_subnet(conn) by {
                assert(net.edges[key].contains(conn));
                assert(net.leads_to_subnet(conn));
                let s = choose|s: usize| #[trigger]
                    net.subnets.contains_key(s) && conn->Subnet_0 == subnet_key(s);
                assert(s != id);
                assert(after.subnets.contains_key(s));
            }
        } else {
            assert(net.subnet_nodes().contains(key));
            let s = choose|s: usize| #[trigger] net.subnets.contains_key(s) && key == subnet_key(s);
            assert(s != id);
            assert(after.subnets.contains_key(s));
            assert(after.subnet_nodes().contains(key));
            assert(after.edges[key] == net.edges[key]);
            assert forall|conn: Connection| #[trigger]
                after.edges[key].contains(conn) implies after.leads_to_input(conn) by {
                assert(net.leads_to_input(conn));
                let c = choose|c: usize| #[trigger]
                    net.components.contains_key(c) && conn->Component_0 == component_key(c)
                        && conn->Component_1 < net.input_count(c);
                assert(after.components.contains_key(c));
            }
        }
    }
}

/// A new subnet leaves every edge with live ends.
pub proof fn lemma_add_subnet_keeps_closed<C: Component>(net: Netlist<C>, id: usize)
    requires
        net.closed(),
    ensures
        net.with_subnet(id).closed(),
{
    let after = net.with_subnet(id);
    assert forall|key: usize| net.subnet_nodes().contains(key) implies after.subnet_nodes()
        .contains(key) by {
        let s = choose|s: usize| #[trigger] net.subnets.contains_key(s) && key == subnet_key(s);
        assert(after.subnets.contains_key(s));
    }
    assert(after.component_nodes() =~= net.component_nodes());
    assert forall|key: usize| #[trigger]
        after.edges.contains_key(key) implies after.joins_live_ends(key) by {
        assert(net.edges.contains_key(key));
        assert forall|conn: Connection| net.leads_to_subnet(conn) implies after.leads_to_subnet(
            conn,
        ) by {}
        assert forall|conn: Connection| net.leads_to_input(conn) implies after.leads_to_input(
            conn,
        ) by {
            let c = choose|c: usize| #[trigger]
                net.components.contains_key(c) && conn->Component_0 == component_key(c)
                    && conn->Component_1 < net.input_count(c);
            assert(after.components.contains_key(c));
        }
    }
}

/// A link between a live component and a live subnet, into an input port
/// where it leads to the component, leaves every edge with live ends.
pub proof fn lemma_link_keeps_closed<C: Component>(
    net: Netlist<C>,
    component: usize,
    port: usize,
    subnet: usize,
    direction: bool,
)
    requires
        net.wf(),
        net.closed(),
        net.components.contains_key(component),
        net.subnets.contains_key(subnet),
        !direction ==> port < net.input_count(component),
    ensures
        direction ==> net.with_edge(
            component_key(component),
            Connection::Subnet(subnet_key(subnet)),
        ).closed(),
        !direction ==> net.with_edge(
            subnet_key(subnet),
            Connection::Component(component_key(component), port),
        ).closed(),
{
    lemma_nodes_apart(net);
    let (source, conn) = if direction {
        (component_key(component), Connection::Subnet(subnet_key(subnet)))
    } else {
        (subnet_key(subnet), Connection::Component(component_key(component), port))
    };
    let after = net.with_edge(source, conn);
    assert(after.component_nodes() =~= net.component_nodes());
    assert(after.subnet_nodes() =~= net.subnet_nodes());
    assert forall|c: Connection| net.leads_to_subnet(c) == after.leads_to_subnet(c) by {}
    assert forall|c: Connection| net.leads_to_input(c) == after.leads_to_input(c) by {
        if net.leads_to_input(c) {
            let id = choose|id: usize| #[trigger]
                net.components.contains_key(id) && c->Component_0 == component_key(id)
                    && c->Component_1 < net.input_count(id);
            assert(after.components.contains_key(id));
        }
        if after.leads_to_input(c) {
            let id = choose|id: usize| #[trigger]
                after.components.contains_key(id) && c->Component_0 == component_key(id)
                    && c->Component_1 < after.input_count(id);
            assert(net.components.contains_key(id));
        }
    }
    if direction {
        assert(net.leads_to_subnet(conn));
    } else {
        assert(net.leads_to_input(conn));
    }
    assert forall|key: usize| #[trigger]
        after.edges.contains_key(key) implies after.joins_live_ends(key) by {
        if key == source {
            assert(after.edges[key] == net.targets(key).insert(conn));
            if net.edges.contains_key(key) {
                assert(net.edges[key] == net.targets(key));
            }
        } else {
            assert(net.edges.contains_key(key));
            assert(after.edges[key] == net.edges[key]);
        }
    }
}

/// Dropping an edge leaves every edge with live ends.
pub proof fn lemma_unlink_keeps_closed<C: Component>(
    net: Netlist<C>,
    key: usize,
    conn: Connection,
)
    requires
        net.closed(),
    ensures
        net.without_edge(key, conn).closed(),
{
    let after = net.without_edge(key, conn);
    assert(after.component_nodes() =~= net.component_nodes());
    assert(after.subnet_nodes() =~= net.subnet_nodes());
    assert forall|c: Connection| net.leads_to_subnet(c) == after.leads_to_subnet(c) by {}
    assert forall|c: Connection| net.leads_to_input(c) == after.leads_to_input(c) by {
        if net.leads_to_input(c) {
            let id = choose|id: usize| #[trigger]
                net.components.contains_key(id) && c->Component_0 == component_key(id)
                    && c->Component_1 < net.input_count(id);
            assert(after.components.contains_key(id));
        }
        if after.leads_to_input(c) {
            let id = choose|id: usize| #[trigger]
                after.components.contains_key(id) && c->Component_0 == component_key(id)
                    && c->Component_1 < after.input_count(id);
            assert(net.components.contains_key(id));
        }
    }
    assert forall|k: usize| #[trigger]
        after.edges.contains_key(k) implies after.joins_live_ends(k) by {
        assert(net.edges.contains_key(k));
        assert forall|c: Connection| #[trigger] after.edges[k].contains(c) implies net.edges[k]
            .contains(c) by {}
    }
}

/// A new component whose slots name live subnets only leaves every edge
/// with live ends.
pub proof fn lemma_add_component_keeps_closed<C: Component>(
    net: Netlist<C>,
    id: usize,
    component: C,
    inputs: Seq<Option<usize>>,
    outputs: Seq<Option<usize>>,
)
    requires
        net.wf(),
        net.closed(),
        net.allocates(id),
        component_fits(id),
        inputs.len() == count_ports(component.port_types(), PortType::Input),
        net.slots_live(inputs),
        net.slots_live(outputs),
    ensures
        net.with_component(id, component, inputs, outputs).closed(),
{
    lemma_nodes_apart(net);
    lemma_allocation_reuses(net, id);
    let node = component_key(id);
    let stored = Netlist {
        components: net.components.insert(id, component),
        free: net.free.remove(id),
        ..net
    };
    let fed = stored.with_inputs(node, inputs);
    let after = net.with_component(id, component, inputs, outputs);
    assert(after == fed.with_outputs(node, outputs));
    assert(after.subnet_nodes() =~= net.subnet_nodes());
    assert(after.components.contains_key(id));
    assert(after.component_nodes().contains(node));
    assert(after.input_count(id) == inputs.len());
    assert forall|key: usize| net.component_nodes().contains(key) implies after.component_nodes()
        .contains(key) by {
        let c = choose|c: usize| #[trigger]
            net.components.contains_key(c) && key == component_key(c);
        assert(after.components.contains_key(c));
    }
    assert forall|c: Connection| net.leads_to_subnet(c) implies after.leads_to_subnet(c) by {}
    assert forall|c: Connection| net.leads_to_input(c) implies after.leads_to_input(c) by {
        let other = choose|other: usize| #[trigger]
            net.components.contains_key(other) && c->Component_0 == component_key(other)
                && c->Component_1 < net.input_count(other);
        assert(other != id);
        assert(after.components.contains_key(other));
        assert(after.input_count(other) == net.input_count(other));
    }
    assert forall|c: Connection| output_edges(outputs).contains(c) implies after.leads_to_subnet(
        c,
    ) by {
        let (p, key) = choose|p: int, key: usize| #[trigger]
            slot_is(outputs, p, key) && c == Connection::Subnet(key);
        assert(net.subnets.contains_key(outputs[p]->0));
    }
    assert forall|key: usize, c: Connection|
        input_edges(node, inputs, key).contains(c) implies after.leads_to_input(c)
        && after.subnet_nodes().contains(key) by {
        let p = choose|p: int| #[trigger]
            slot_is(inputs, p, key) && c == Connection::Component(node, p as usize);
        assert(net.subnets.contains_key(inputs[p]->0));
        assert(after.components.contains_key(id));
    }
    assert forall|key: usize| #[trigger]
        after.edges.contains_key(key) implies after.joins_live_ends(key) by {
        if key == node && outputs.len() > 0 {
            assert(after.edges[key] == fed.targets(key).union(output_edges(outputs)));
            // the node of a new component had no edge set, and no subnet leads from it
            assert(!net.edges.contains_key(key)) by {
                if net.edges.contains_key(key) {
                    let other = choose|other: usize| #[trigger]
                        net.components.contains_key(other) && key == component_key(other);
                    assert(net.known(other));
                }
            }
            assert forall|c: Connection| !input_edges(node, inputs, key).contains(c) by {
                if input_edges(node, inputs, key).contains(c) {
                    assert(after.subnet_nodes().contains(key));
                }
            }
            assert(fed.targets(key) =~= Set::empty()) by {
                if fed.edges.contains_key(key) {
                    assert(fed.edges[key] == stored.targets(key).union(
                        input_edges(node, inputs, key),
                    ));
                }
            }
        } else {
            assert(fed.edges.contains_key(key));
            assert(after.edges[key] == fed.edges[key]);
            assert(fed.edges[key] == net.targets(key).union(input_edges(node, inputs, key)));
            if net.edges.contains_key(key) && net.component_nodes().contains(key) {
                // no subnet leads from the node of a component
                assert forall|c: Connection| !input_edges(node, inputs, key).contains(c) by {
                    if input_edges(node, inputs, key).contains(c) {
                        assert(net.subnet_nodes().contains(key));
                    }
                }
                assert forall|c: Connection| #[trigger]
                    after.edges[key].contains(c) implies after.leads_to_subnet(c) by {
                    assert(net.edges[key].contains(c));
                }
            } else if net.edges.contains_key(key) {
                assert(net.subnet_nodes().contains(key));
                assert forall|c: Connection| #[trigger]
                    after.edges[key].contains(c) implies after.leads_to_input(c) by {
                    if !input_edges(node, inputs, key).contains(c) {
                        assert(net.edges[key].contains(c));
                        assert(net.leads_to_input(c));
                    }
                }
            } else {
                let p = choose|p: int| #[trigger] slot_is(inputs, p, key);
                assert(input_edges(node, inputs, key).contains(
                    Connection::Component(node, p as usize),
                ));
                assert(after.subnet_nodes().contains(key));
                assert forall|c: Connection| #[trigger]
                    after.edges[key].contains(c) implies after.leads_to_input(c) by {
                    assert(input_edges(node, inputs, key).contains(c));
                }
            }
        }
    }
}

/// Evaluation and interaction are no graph edits: a live component that is
/// replaced by one with the same port typing leaves the graph valid and
/// every edge with live ends.
pub proof fn lemma_same_typing_keeps_closed<C: Component>(
    net: Netlist<C>,
    id: usize,
    now: C,
)
    requires
        net.wf(),
        net.closed(),
        net.components.contains_key(id),
        now.port_types() == net.components[id].port_types(),
    ensures
        (Netlist { components: net.components.insert(id, now), ..net }).wf(),
        (Netlist { components: net.components.insert(id, now), ..net }).closed(),
{
    let after = Netlist { components: net.components.insert(id, now), ..net };
    assert(after.components.dom() =~= net.components.dom());
    assert(after.component_nodes() =~= net.component_nodes());
    assert(after.subnet_nodes() =~= net.subnet_nodes());
    assert forall|other: usize| after.known(other) == net.known(other) by {}
    assert forall|c: Connection| net.leads_to_input(c) implies after.leads_to_input(c) by {
        let other = choose|other: usize| #[trigger]
            net.components.contains_key(other) && c->Component_0 == component_key(other)
                && c->Component_1 < net.input_count(other);
        assert(after.components.contains_key(other));
        assert(after.input_count(other) == net.input_count(other));
    }
    assert forall|key: usize| #[trigger]
        after.edges.contains_key(key) implies after.joins_live_ends(key) by {
        assert(net.edges.contains_key(key));
    }
}

} // verus!
