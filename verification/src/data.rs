//! The netlist graph: components and subnets by identifier, and the
//! adjacency structure between them.
//!
//! Components and subnets share one adjacency map. The subnet with
//! identifier `s` is the node `2s` and the component with identifier `c` is
//! the node `2c + 1`; a port `p` of that component is reached as
//! `Connection::Component(2c + 1, p)`.

use std::collections::hash_map::Entry;
use std::collections::HashMap;
use vstd::prelude::*;
use vstd::std_specs::iter::IteratorSpec;

use crate::data::component::{count_ports, Component, PortType};
use crate::data::edges::ConnectionSet;
use crate::data::free_ids::FreeIds;
use crate::data::laws::{
    lemma_remove_component_purges, lemma_remove_subnet_purges, lemma_unlink_removes_both,
};
use crate::data::netlist::{
    component_fits, component_key, input_ports, lemma_input_ports_step, lemma_with_inputs_none,
    lemma_with_inputs_step, lemma_with_output_edges_step, lemma_without_edge_is_without_targets,
    lemma_without_targets_more, lemma_without_targets_none, lists, output_edges, slot_is,
    slots_fit, subnet_fits, subnet_key, Netlist,
};
use crate::data::subnet::{Subnet, SubnetState};

pub mod component;
pub mod laws;
pub mod netlist;
pub mod subnet;

mod edges;
mod free_ids;

verus! {

broadcast use vstd::std_specs::hash::group_hash_axioms;

/// One directed entry of the adjacency structure. Both variants name their
/// target by its node key.
#[derive(Debug, Eq, PartialEq, Clone, Copy, Hash, Structural)]
pub enum Connection {
    /// To the subnet with this node key.
    Subnet(usize),
    /// To a port of the component with this node key.
    Component(usize, usize),
}

/// The adjacency structure that a map of edge sets stands for.
spec fn edge_sets(edges: Map<usize, ConnectionSet>) -> Map<usize, Set<Connection>> {
    Map::new(|key: usize| edges.contains_key(key), |key: usize| edges[key]@)
}

proof fn lemma_edge_sets_insert(edges: Map<usize, ConnectionSet>, key: usize, set: ConnectionSet)
    ensures
        edge_sets(edges.insert(key, set)) == edge_sets(edges).insert(key, set@),
{
    assert(edge_sets(edges.insert(key, set)) =~= edge_sets(edges).insert(key, set@));
}

proof fn lemma_edge_sets_remove(edges: Map<usize, ConnectionSet>, key: usize)
    ensures
        edge_sets(edges.remove(key)) == edge_sets(edges).remove(key),
{
    assert(edge_sets(edges.remove(key)) =~= edge_sets(edges).remove(key));
}

/// The values that a map of subnets stands for.
spec fn subnet_values(subnets: Map<usize, Subnet>) -> Map<usize, SubnetState> {
    Map::new(|id: usize| subnets.contains_key(id), |id: usize| subnets[id]@)
}

proof fn lemma_subnet_values_insert(subnets: Map<usize, Subnet>, id: usize, subnet: Subnet)
    ensures
        subnet_values(subnets.insert(id, subnet)) == subnet_values(subnets).insert(id, subnet@),
{
    assert(subnet_values(subnets.insert(id, subnet)) =~= subnet_values(subnets).insert(
        id,
        subnet@,
    ));
}

proof fn lemma_subnet_values_remove(subnets: Map<usize, Subnet>, id: usize)
    ensures
        subnet_values(subnets.remove(id)) == subnet_values(subnets).remove(id),
{
    assert(subnet_values(subnets.remove(id)) =~= subnet_values(subnets).remove(id));
}

/// The keys of `map`, each once, in no particular order.
fn keys_of<V>(map: &HashMap<usize, V>) -> (keys: Vec<usize>)
    ensures
        keys@.no_duplicates(),
        keys@.to_set() == map@.dom(),
{
    let mut keys: Vec<usize> = Vec::new();
    let ghost all = map.keys().remaining();
    for key in iter: map.keys()
        invariant
            iter.seq() == all,
            keys@.len() == iter.index(),
            forall|i: int| 0 <= i < keys@.len() ==> keys@[i] == *all[i],
    {
        keys.push(*key);
    }
    proof {
        assert(keys@.len() == all.len());
        assert(keys@ =~= all.unref());
        assert forall|i: int, j: int| 0 <= i < j < keys@.len() implies keys@[i] != keys@[j] by {
            assert(all[i] != all[j]);
        }
    }
    keys
}

/// The netlist graph, for components of type `C`. With `Box<dyn Component>`
/// for `C` one graph holds components of every kind.
pub struct Data<C: Component> {
    components: HashMap<usize, C>,
    components_free: FreeIds,
    subnets: HashMap<usize, Subnet>,
    // The key is the node an edge leaves, the value where its edges lead.
    // Components live on odd keys, subnets on even keys.
    edges: HashMap<usize, ConnectionSet>,
}

impl<C: Component> View for Data<C> {
    type V = Netlist<C>;

    closed spec fn view(&self) -> Netlist<C> {
        Netlist {
            components: self.components@,
            free: self.components_free@,
            subnets: subnet_values(self.subnets@),
            edges: edge_sets(self.edges@),
        }
    }
}

impl<C: Component> Data<C> {
    /// The representation is sound: the freed identifiers are in order and
    /// no edge set holds a connection twice.
    pub closed spec fn inv(&self) -> bool {
        &&& self.components_free.wf()
        &&& forall|key: usize|
            #![trigger self.edges@.contains_key(key)]
            self.edges@.contains_key(key) ==> self.edges@[key].wf()
    }

    /// The graph is valid.
    pub open spec fn wf(&self) -> bool {
        self.inv() && self@.wf()
    }

    /// A graph without components, subnets or edges.
    pub fn new() -> (data: Self)
        ensures
            data.wf(),
            data@ == Netlist::<C>::empty(),
    {
        let data = Self {
            components: HashMap::new(),
            components_free: FreeIds::new(),
            subnets: HashMap::new(),
            edges: HashMap::new(),
        };
        proof {
            assert(data@.edges =~= Map::<usize, Set<Connection>>::empty());
            assert(data@.subnets =~= Map::<usize, SubnetState>::empty());
            assert(data@ == Netlist::<C>::empty());
        }
        data
    }

    /// The adjacency structure as a list: every node that has an edge set,
    /// once, with the connections that leave it, each once. The order of
    /// the nodes and of the connections is arbitrary.
    pub fn edges(&self) -> (list: Vec<(usize, Vec<Connection>)>)
        requires
            self.wf(),
        ensures
            lists(list@, self@.edges),
    {
        let keys = keys_of(&self.edges);
        let mut list: Vec<(usize, Vec<Connection>)> = Vec::new();
        let mut at: usize = 0;
        while at < keys.len()
            invariant
                self.wf(),
                keys@.no_duplicates(),
                keys@.to_set() == self.edges@.dom(),
                at <= keys@.len(),
                list@.len() == at,
                forall|i: int|
                    0 <= i < at ==> {
                        &&& (#[trigger] list@[i]).0 == keys@[i]
                        &&& list@[i].1@.to_set() == self@.edges[keys@[i]]
                        &&& list@[i].1@.no_duplicates()
                    },
            decreases keys@.len() - at,
        {
            let key = keys[at];
            assert(keys@.to_set().contains(key));
            match self.edges.get(&key) {
                Some(set) => {
                    list.push((key, set.to_vec()));
                },
                None => {},
            }
            at = at + 1;
        }
        proof {
            assert forall|i: int| 0 <= i < list@.len() implies self@.edges.contains_key(
                (#[trigger] list@[i]).0,
            ) by {
                assert(keys@.to_set().contains(keys@[i]));
            }
            assert forall|key: usize| #[trigger]
                self@.edges.contains_key(key) implies exists|i: int|
                0 <= i < list@.len() && (#[trigger] list@[i]).0 == key by {
                assert(keys@.to_set().contains(key));
                let i = choose|i: int| 0 <= i < keys@.len() && keys@[i] == key;
                assert(list@[i].0 == key);
            }
        }
        list
    }

    /// The component with identifier `idx`, if it is live.
    pub fn component(&self, idx: usize) -> (found: Option<&C>)
        ensures
            match found {
                Some(c) => self@.components.contains_key(idx) && *c == self@.components[idx],
                None => !self@.components.contains_key(idx),
            },
    {
        self.components.get(&idx)
    }

    /// The component with identifier `idx`, if it is live, for evaluation
    /// and interaction. What the caller leaves behind the reference is the
    /// component from then on.
    pub fn component_mut(&mut self, idx: usize) -> (found: Option<&mut C>)
        ensures
            match found {
                Some(c) => {
                    &&& old(self)@.components.contains_key(idx)
                    &&& *c == old(self)@.components[idx]
                    &&& final(self)@ == (Netlist {
                        components: old(self)@.components.insert(idx, *final(c)),
                        ..old(self)@
                    })
                    &&& old(self).wf() ==> final(self).wf()
                },
                None => {
                    &&& !old(self)@.components.contains_key(idx)
                    &&& final(self)@ == old(self)@
                    &&& old(self).wf() ==> final(self).wf()
                },
            },
    {
        if !self.components.contains_key(&idx) {
            return None;
        }
        match self.components.entry(idx) {
            Entry::Occupied(slot) => Some(slot.into_mut()),
            Entry::Vacant(_) => None,
        }
    }

    /// The subnet with identifier `idx`, if it is live.
    pub fn subnet(&self, idx: usize) -> (found: Option<&Subnet>)
        ensures
            match found {
                Some(s) => self@.subnets.contains_key(idx) && s@ == self@.subnets[idx],
                None => !self@.subnets.contains_key(idx),
            },
    {
        self.subnets.get(&idx)
    }

    /// The subnet with identifier `idx`, if it is live, for an update of its
    /// value.
    pub fn subnet_mut(&mut self, idx: usize) -> (found: Option<&mut Subnet>)
        ensures
            match found {
                Some(s) => {
                    &&& old(self)@.subnets.contains_key(idx)
                    &&& s@ == old(self)@.subnets[idx]
                    &&& final(self)@ == (Netlist {
                        subnets: old(self)@.subnets.insert(idx, final(s)@),
                        ..old(self)@
                    })
                    &&& old(self).wf() ==> final(self).wf()
                },
                None => {
                    &&& !old(self)@.subnets.contains_key(idx)
                    &&& final(self)@ == old(self)@
                    &&& old(self).wf() ==> final(self).wf()
                },
            },
    {
        if !self.subnets.contains_key(&idx) {
            return None;
        }
        proof {
            let before = self.subnets@;
            assert forall|subnet: Subnet| #[trigger]
                subnet_values(before.insert(idx, subnet)) == subnet_values(before).insert(
                    idx,
                    subnet@,
                ) by {
                lemma_subnet_values_insert(before, idx, subnet);
            }
        }
        match self.subnets.entry(idx) {
            Entry::Occupied(slot) => Some(slot.into_mut()),
            Entry::Vacant(_) => None,
        }
    }

    /// Records the edge from node `key` to `conn` and says whether it is new.
    fn insert_edge(&mut self, key: usize, conn: Connection) -> (fresh: bool)
        requires
            old(self).wf(),
        ensures
            final(self).wf(),
            final(self)@ == old(self)@.with_edge(key, conn),
            fresh == !old(self)@.targets(key).contains(conn),
    {
        let set = self.edges.entry(key).or_insert(ConnectionSet::new());
        let fresh = set.insert(conn);
        proof {
            let before = old(self).edges@;
            let after = self.edges@;
            assert(after == before.insert(key, after[key]));
            lemma_edge_sets_insert(before, key, after[key]);
            assert(self@.subnets == old(self)@.subnets);
        }
        fresh
    }

    /// Drops the edge from node `key` to `conn` and says whether it was
    /// there.
    fn remove_edge(&mut self, key: usize, conn: Connection) -> (found: bool)
        requires
            old(self).wf(),
        ensures
            final(self).wf(),
            final(self)@ == old(self)@.without_edge(key, conn),
            found == old(self)@.targets(key).contains(conn),
    {
        if !self.edges.contains_key(&key) {
            return false;
        }
        let found = match self.edges.entry(key) {
            Entry::Occupied(mut inner) => inner.get_mut().remove(conn),
            Entry::Vacant(_) => false,
        };
        proof {
            let before = old(self).edges@;
            let after = self.edges@;
            assert(after == before.insert(key, after[key]));
            lemma_edge_sets_insert(before, key, after[key]);
            assert(self@.subnets == old(self)@.subnets);
        }
        found
    }

    /// Creates the subnet `id`, unless there is one already.
    pub fn add_subnet(&mut self, id: usize) -> (added: bool)
        requires
            old(self).wf(),
            subnet_fits(id),
        ensures
            final(self).wf(),
            added == !old(self)@.subnets.contains_key(id),
            final(self)@ == if added {
                old(self)@.with_subnet(id)
            } else {
                old(self)@
            },
    {
        if self.subnets.contains_key(&id) {
            return false;
        }
        let subnet = Subnet::new();
        proof {
            lemma_subnet_values_insert(self.subnets@, id, subnet);
        }
        self.subnets.insert(id, subnet);
        assert(self@.subnets == old(self)@.subnets.insert(id, SubnetState::Floating));
        true
    }

    /// Connects `component` and `subnet`. With `direction` set the edge
    /// leads from the component to the subnet, else from the subnet to
    /// `port` of the component. Says whether the edge is new.
    pub fn link(
        &mut self,
        component: usize,
        port: usize,
        subnet: usize,
        direction: bool,
    ) -> (inserted: bool)
        requires
            old(self).wf(),
            component_fits(component),
            subnet_fits(subnet),
        ensures
            final(self).wf(),
            direction ==> {
                &&& final(self)@ == old(self)@.with_edge(
                    component_key(component),
                    Connection::Subnet(subnet_key(subnet)),
                )
                &&& inserted == !old(self)@.targets(component_key(component)).contains(
                    Connection::Subnet(subnet_key(subnet)),
                )
                &&& final(self)@.targets(component_key(component)).contains(
                    Connection::Subnet(subnet_key(subnet)),
                )
            },
            !direction ==> {
                &&& final(self)@ == old(self)@.with_edge(
                    subnet_key(subnet),
                    Connection::Component(component_key(component), port),
                )
                &&& inserted == !old(self)@.targets(subnet_key(subnet)).contains(
                    Connection::Component(component_key(component), port),
                )
                &&& final(self)@.targets(subnet_key(subnet)).contains(
                    Connection::Component(component_key(component), port),
                )
            },
    {
        if direction {
            self.insert_edge(component * 2 + 1, Connection::Subnet(subnet * 2))
        } else {
            self.insert_edge(subnet * 2, Connection::Component(component * 2 + 1, port))
        }
    }

    /// Disconnects `component` and `subnet`: drops the edge from the
    /// component to the subnet and the edge from the subnet to `port` of the
    /// component. Says whether either was there.
    pub fn unlink(&mut self, component: usize, port: usize, subnet: usize) -> (found: bool)
        requires
            old(self).wf(),
            component_fits(component),
            subnet_fits(subnet),
        ensures
            final(self).wf(),
            final(self)@ == old(self)@.without_edge(
                component_key(component),
                Connection::Subnet(subnet_key(subnet)),
            ).without_edge(
                subnet_key(subnet),
                Connection::Component(component_key(component), port),
            ),
            found == (old(self)@.targets(component_key(component)).contains(
                Connection::Subnet(subnet_key(subnet)),
            ) || old(self)@.targets(subnet_key(subnet)).contains(
                Connection::Component(component_key(component), port),
            )),
            !final(self)@.targets(component_key(component)).contains(
                Connection::Subnet(subnet_key(subnet)),
            ),
            !final(self)@.targets(subnet_key(subnet)).contains(
                Connection::Component(component_key(component), port),
            ),
    {
        proof {
            lemma_unlink_removes_both(self@, component, port, subnet);
        }
        let outward = self.remove_edge(component * 2 + 1, Connection::Subnet(subnet * 2));
        let inward = self.remove_edge(
            subnet * 2,
            Connection::Component(component * 2 + 1, port),
        );
        outward || inward
    }

    /// Drops the edge set of the node `key`.
    fn remove_node(&mut self, key: usize)
        requires
            old(self).wf(),
        ensures
            final(self).wf(),
            final(self)@ == old(self)@.without_node(key),
    {
        self.edges.remove(&key);
        proof {
            lemma_edge_sets_remove(old(self).edges@, key);
            assert(self@.subnets == old(self)@.subnets);
        }
    }

    /// The node keys of the live subnets, each once.
    fn subnet_node_keys(&self) -> (keys: Vec<usize>)
        requires
            self.wf(),
        ensures
            keys@.to_set() == self@.subnet_nodes(),
    {
        let ids = keys_of(&self.subnets);
        let mut keys: Vec<usize> = Vec::new();
        let mut i: usize = 0;
        while i < ids.len()
            invariant
                self.wf(),
                ids@.to_set() == self@.subnets.dom(),
                i <= ids@.len(),
                keys@.len() == i,
                forall|j: int| 0 <= j < i ==> keys@[j] == subnet_key(ids@[j]),
            decreases ids@.len() - i,
        {
            let id = ids[i];
            assert(ids@.to_set().contains(id));
            assert(self@.subnets.contains_key(id));
            keys.push(2 * id);
            i = i + 1;
        }
        proof {
            let nodes = self@.subnet_nodes();
            assert forall|key: usize| keys@.to_set().contains(key) <==> nodes.contains(key) by {
                if keys@.to_set().contains(key) {
                    let j = choose|j: int| 0 <= j < keys@.len() && keys@[j] == key;
                    assert(ids@.to_set().contains(ids@[j]));
                    assert(self@.subnets.contains_key(ids@[j]));
                }
                if nodes.contains(key) {
                    let id = choose|id: usize| #[trigger]
                        self@.subnets.contains_key(id) && key == subnet_key(id);
                    assert(ids@.to_set().contains(id));
                    let j = choose|j: int| 0 <= j < ids@.len() && ids@[j] == id;
                    assert(keys@[j] == key);
                }
            }
            assert(keys@.to_set() =~= nodes);
        }
        keys
    }

    /// The node keys of the live components, each once.
    fn component_node_keys(&self) -> (keys: Vec<usize>)
        requires
            self.wf(),
        ensures
            keys@.to_set() == self@.component_nodes(),
    {
        let ids = keys_of(&self.components);
        let mut keys: Vec<usize> = Vec::new();
        let mut i: usize = 0;
        while i < ids.len()
            invariant
                self.wf(),
                ids@.to_set() == self@.components.dom(),
                i <= ids@.len(),
                keys@.len() == i,
                forall|j: int| 0 <= j < i ==> keys@[j] == component_key(ids@[j]),
            decreases ids@.len() - i,
        {
            let id = ids[i];
            assert(ids@.to_set().contains(id));
            assert(self@.components.contains_key(id));
            keys.push(2 * id + 1);
            i = i + 1;
        }
        proof {
            let nodes = self@.component_nodes();
            assert forall|key: usize| keys@.to_set().contains(key) <==> nodes.contains(key) by {
                if keys@.to_set().contains(key) {
                    let j = choose|j: int| 0 <= j < keys@.len() && keys@[j] == key;
                    assert(ids@.to_set().contains(ids@[j]));
                    assert(self@.components.contains_key(ids@[j]));
                }
                if nodes.contains(key) {
                    let id = choose|id: usize| #[trigger]
                        self@.components.contains_key(id) && key == component_key(id);
                    assert(ids@.to_set().contains(id));
                    let j = choose|j: int| 0 <= j < ids@.len() && ids@[j] == id;
                    assert(keys@[j] == key);
                }
            }
            assert(keys@.to_set() =~= nodes);
        }
        keys
    }

    /// Destroys the subnet `id` and every edge that the live components have
    /// to it. Says whether there was such a subnet. Nothing refers to the
    /// subnet afterwards, unless an edge to it left a node that is neither
    /// its own nor that of a live component.
    pub fn remove_subnet(&mut self, id: usize) -> (removed: bool)
        requires
            old(self).wf(),
        ensures
            final(self).wf(),
            removed == old(self)@.subnets.contains_key(id),
            final(self)@ == if removed {
                old(self)@.without_subnet(id)
            } else {
                old(self)@
            },
            removed ==> (!final(self)@.mentions_subnet(id) <==> old(self)@.subnet_anchored(id)),
    {
        proof {
            lemma_subnet_values_remove(self.subnets@, id);
            if self@.subnets.contains_key(id) {
                lemma_remove_subnet_purges(self@, id);
            }
        }
        if self.subnets.remove(&id).is_none() {
            assert(self@.subnets =~= old(self)@.subnets);
            return false;
        }
        assert(old(self)@.subnets.contains_key(id));
        assert(self@.subnets == old(self)@.subnets.remove(id));
        let key = 2 * id;
        let gone = Connection::Subnet(key);
        self.remove_node(key);

        let nodes = self.component_node_keys();
        let ghost base = self@;
        proof {
            lemma_without_targets_none(base, set![gone]);
            assert(nodes@.take(0).to_set() =~= Set::<usize>::empty());
        }
        let mut i: usize = 0;
        while i < nodes.len()
            invariant
                self.wf(),
                i <= nodes@.len(),
                self@ == base.without_targets(nodes@.take(i as int).to_set(), set![gone]),
            decreases nodes@.len() - i,
        {
            let ghost before = self@;
            self.remove_edge(nodes[i], gone);
            proof {
                let done = nodes@.take(i as int).to_set();
                lemma_without_edge_is_without_targets(before, nodes@[i as int], gone);
                lemma_without_targets_more(base, done, nodes@[i as int], set![gone]);
                assert(nodes@.take(i + 1) == nodes@.take(i as int).push(nodes@[i as int]));
                nodes@.take(i as int).lemma_push_to_set_commute(nodes@[i as int]);
            }
            i = i + 1;
        }
        proof {
            assert(nodes@.take(nodes@.len() as int) == nodes@);
        }
        true
    }

    /// Drops from the edge set of the node `key` the connections to the
    /// first `inputs` ports of the component node `node`.
    fn purge_ports(&mut self, key: usize, node: usize, inputs: usize)
        requires
            old(self).wf(),
        ensures
            final(self).wf(),
            final(self)@ == old(self)@.without_targets(
                set![key],
                input_ports(node, inputs as nat),
            ),
    {
        let ghost base = self@;
        proof {
            assert(base.without_targets(set![key], input_ports(node, 0)).edges =~= base.edges) by {
                assert forall|k: usize| #[trigger] base.edges.contains_key(k) implies base.edges[k]
                    == base.without_targets(set![key], input_ports(node, 0)).edges[k] by {
                    assert(base.edges[k].difference(input_ports(node, 0)) =~= base.edges[k]);
                }
            }
        }
        let mut port: usize = 0;
        while port < inputs
            invariant
                self.wf(),
                port <= inputs,
                self@ == base.without_targets(set![key], input_ports(node, port as nat)),
            decreases inputs - port,
        {
            self.remove_edge(key, Connection::Component(node, port));
            proof {
                lemma_input_ports_step(base, key, node, port);
            }
            port = port + 1;
        }
    }

    /// Hands out an identifier for `component` and stores it.
    fn alloc_component(&mut self, component: C) -> (idx: usize)
        requires
            old(self).wf(),
            old(self)@.has_room(),
        ensures
            final(self).wf(),
            old(self)@.allocates(idx),
            component_fits(idx),
            final(self)@ == (Netlist {
                components: old(self)@.components.insert(idx, component),
                free: old(self)@.free.remove(idx),
                ..old(self)@
            }),
    {
        proof {
            self.components_free.lemma_len();
        }
        let idx = match self.components_free.pop() {
            Some(id) => id,
            None => self.components.len(),
        };
        proof {
            self.components_free.lemma_len();
            assert(old(self)@.known(idx) <==> old(self)@.free.contains(idx));
            assert(!old(self)@.components.contains_key(idx));
            if old(self)@.free == Set::<usize>::empty() {
                assert(self@.free =~= old(self)@.free.remove(idx));
            }
        }
        let previous = self.components.insert(idx, component);
        proof {
            assert(previous is None);
            let before = old(self)@;
            let after = self@;
            assert(after.components.dom() =~= before.components.dom().insert(idx));
            assert(after.subnets == before.subnets);
            assert(after.edges == before.edges);
            assert forall|id: usize| after.known(id) <==> before.known(id) || id == idx by {}
            assert(after.components.len() + after.free.len() == before.components.len()
                + before.free.len() + if before.free.contains(idx) {
                0int
            } else {
                1int
            });
        }
        idx
    }

    /// Detaches and frees the component `id` and drops every edge that the
    /// live subnets have to its input ports. Says whether there was such a
    /// component. Nothing refers to the component afterwards, unless an edge
    /// to it led to a port that is none of its inputs, or left a node that
    /// is neither its own nor that of a live subnet.
    pub fn remove_component(&mut self, id: usize) -> (removed: bool)
        requires
            old(self).wf(),
        ensures
            final(self).wf(),
            removed == old(self)@.components.contains_key(id),
            final(self)@ == if removed {
                old(self)@.without_component(id)
            } else {
                old(self)@
            },
            removed ==> (!final(self)@.mentions_component(id) <==> old(self)@.component_anchored(
                id,
            )),
    {
        proof {
            self.components_free.lemma_len();
            if self@.components.contains_key(id) {
                lemma_remove_component_purges(self@, id);
            }
        }
        let component = match self.components.remove(&id) {
            Some(c) => c,
            None => {
                assert(self@.components =~= old(self)@.components);
                return false;
            },
        };
        assert(old(self)@.known(id));
        self.components_free.push(id);
        proof {
            self.components_free.lemma_len();
            let before = old(self)@;
            let after = self@;
            assert(after.components == before.components.remove(id));
            assert(after.free == before.free.insert(id));
            assert(after.subnets == before.subnets);
            assert(after.edges == before.edges);
            assert forall|other: usize| after.known(other) <==> before.known(other) by {}
        }
        let node = 2 * id + 1;
        self.remove_node(node);
        let inputs = component.inputs();

        let nodes = self.subnet_node_keys();
        let ghost base = self@;
        let ghost gone = input_ports(node, inputs as nat);
        proof {
            lemma_without_targets_none(base, gone);
            assert(nodes@.take(0).to_set() =~= Set::<usize>::empty());
        }
        let mut i: usize = 0;
        while i < nodes.len()
            invariant
                self.wf(),
                i <= nodes@.len(),
                gone == input_ports(node, inputs as nat),
                self@ == base.without_targets(nodes@.take(i as int).to_set(), gone),
            decreases nodes@.len() - i,
        {
            self.purge_ports(nodes[i], node, inputs);
            proof {
                let done = nodes@.take(i as int).to_set();
                lemma_without_targets_more(base, done, nodes@[i as int], gone);
                assert(nodes@.take(i + 1) == nodes@.take(i as int).push(nodes@[i as int]));
                nodes@.take(i as int).lemma_push_to_set_commute(nodes@[i as int]);
            }
            i = i + 1;
        }
        proof {
            assert(nodes@.take(nodes@.len() as int) == nodes@);
        }
        true
    }

    /// Gives the node `key` an edge set, an empty one unless it has one.
    fn touch_node(&mut self, key: usize)
        requires
            old(self).wf(),
        ensures
            final(self).wf(),
            final(self)@ == (Netlist {
                edges: old(self)@.edges.insert(key, old(self)@.targets(key)),
                ..old(self)@
            }),
    {
        let _ = self.edges.entry(key).or_insert(ConnectionSet::new());
        proof {
            let before = old(self).edges@;
            let after = self.edges@;
            assert(after == before.insert(key, after[key]));
            lemma_edge_sets_insert(before, key, after[key]);
            assert(self@.subnets == old(self)@.subnets);
        }
    }

    /// Creates a component and wires it: `inputs` and `outputs` hold one
    /// slot for each input and each output port, in port order, and a slot
    /// that names a subnet connects its port to it. Fails, and changes
    /// nothing, unless there are as many slots of each kind as the component
    /// has ports of that kind. Gives the identifier of the new component.
    pub fn add_component(
        &mut self,
        component: C,
        inputs: Vec<Option<usize>>,
        outputs: Vec<Option<usize>>,
    ) -> (added: Result<usize, ()>)
        requires
            old(self).wf(),
            old(self)@.has_room(),
            slots_fit(inputs@),
            slots_fit(outputs@),
        ensures
            final(self).wf(),
            added is Ok <==> inputs@.len() == count_ports(component.port_types(), PortType::Input)
                && outputs@.len() == count_ports(component.port_types(), PortType::Output),
            match added {
                Ok(idx) => old(self)@.allocates(idx) && final(self)@ == old(self)@.with_component(
                    idx,
                    component,
                    inputs@,
                    outputs@,
                ),
                Err(_) => *final(self) == *old(self),
            },
    {
        if component.inputs() != inputs.len() || component.outputs() != outputs.len() {
            return Err(());
        }
        let idx = self.alloc_component(component);
        let node = 2 * idx + 1;

        let ghost stored = self@;
        proof {
            lemma_with_inputs_none(stored, node);
            assert(inputs@.take(0) =~= Seq::<Option<usize>>::empty());
        }
        let mut port: usize = 0;
        while port < inputs.len()
            invariant
                self.wf(),
                slots_fit(inputs@),
                port <= inputs@.len(),
                self@ == stored.with_inputs(node, inputs@.take(port as int)),
            decreases inputs@.len() - port,
        {
            proof {
                lemma_with_inputs_step(stored, node, inputs@, port as int);
            }
            match inputs[port] {
                Some(subnet) => {
                    self.insert_edge(subnet * 2, Connection::Component(node, port));
                },
                None => {},
            }
            port = port + 1;
        }
        proof {
            assert(inputs@.take(inputs@.len() as int) == inputs@);
        }

        if outputs.len() > 0 {
            let ghost fed = self@;
            self.touch_node(node);
            proof {
                assert(outputs@.take(0) =~= Seq::<Option<usize>>::empty());
                assert(output_edges(Seq::empty()) =~= Set::empty()) by {
                    assert forall|c: Connection| !output_edges(Seq::empty()).contains(c) by {
                        if output_edges(Seq::empty()).contains(c) {
                            let (p, key) = choose|p: int, key: usize| #[trigger]
                                slot_is(Seq::empty(), p, key) && c == Connection::Subnet(key);
                        }
                    }
                }
                assert(fed.targets(node).union(Set::empty()) =~= fed.targets(node));
            }
            let mut port: usize = 0;
            while port < outputs.len()
                invariant
                    self.wf(),
                    slots_fit(outputs@),
                    port <= outputs@.len(),
                    self@ == fed.with_output_edges(node, outputs@.take(port as int)),
                decreases outputs@.len() - port,
            {
                proof {
                    lemma_with_output_edges_step(fed, node, outputs@, port as int);
                }
                match outputs[port] {
                    Some(subnet) => {
                        self.insert_edge(node, Connection::Subnet(subnet * 2));
                    },
                    None => {},
                }
                port = port + 1;
            }
            proof {
                assert(outputs@.take(outputs@.len() as int) == outputs@);
            }
        }
        Ok(idx)
    }
}

} // verus!
