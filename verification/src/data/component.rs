//! Components: the port typing model, the change records an evaluation
//! consumes, and the interface every logic element offers to the netlist.

use std::collections::HashMap;
use vstd::prelude::*;

use crate::data::subnet::SubnetState;

pub mod statefuls;

verus! {

/// Whether a port takes a value in or hands one out.
#[derive(Debug, Clone, Copy, PartialEq, Eq, Structural)]
pub enum PortType {
    Input,
    Output,
}

/// What one port saw during a tick: the value before and the value now.
#[derive(Debug, Clone, Copy, PartialEq, Eq, Structural)]
pub struct StateChange {
    /// The value before this tick.
    pub previous: SubnetState,
    /// The value now.
    pub current: SubnetState,
}

impl StateChange {
    /// A rising edge is exactly the step from `Off` to `On`.
    pub open spec fn spec_rising(&self) -> bool {
        self.previous == SubnetState::Off && self.current == SubnetState::On
    }

    /// The record of a port that read `previous` before and reads `current`
    /// now.
    pub fn new(previous: SubnetState, current: SubnetState) -> (c: StateChange)
        ensures
            c.previous == previous,
            c.current == current,
    {
        StateChange { previous, current }
    }

    /// Whether the record is a rising edge.
    #[verifier::when_used_as_spec(spec_rising)]
    pub fn rising(&self) -> (b: bool)
        ensures
            b == self.spec_rising(),
    {
        self.previous == SubnetState::Off && self.current == SubnetState::On
    }
}

/// The value that `changes` reports for `port`; a port without a record
/// reads as `Off`.
pub open spec fn level(changes: Map<usize, StateChange>, port: usize) -> SubnetState {
    if changes.contains_key(port) {
        changes[port].current
    } else {
        SubnetState::Off
    }
}

/// Whether `changes` holds a rising edge for `port`; a port without a record
/// has none.
pub open spec fn rising_at(changes: Map<usize, StateChange>, port: usize) -> bool {
    changes.contains_key(port) && changes[port].spec_rising()
}

/// The type of port `port` under the typing `types`, if there is such a port.
pub open spec fn port_type_at(types: Seq<PortType>, port: usize) -> Option<PortType> {
    if port < types.len() {
        Some(types[port as int])
    } else {
        None
    }
}

/// Whether `port` is an output port under the typing `types`.
pub open spec fn is_output(types: Seq<PortType>, port: usize) -> bool {
    port_type_at(types, port) == Some(PortType::Output)
}

/// How many ports of `types` have the type `kind`.
pub open spec fn count_ports(types: Seq<PortType>, kind: PortType) -> nat
    decreases types.len(),
{
    if types.len() == 0 {
        0
    } else {
        count_ports(types.drop_last(), kind) + if types.last() == kind {
            1nat
        } else {
            0nat
        }
    }
}

/// Every port is an input or an output, so the two counts add up to the
/// number of ports.
pub proof fn lemma_count_ports_partition(types: Seq<PortType>)
    ensures
        count_ports(types, PortType::Input) + count_ports(types, PortType::Output) == types.len(),
    decreases types.len(),
{
    if types.len() > 0 {
        lemma_count_ports_partition(types.drop_last());
    }
}

/// The value of `port` in `changes`, `Off` where there is no record.
pub fn port_or_default(changes: &HashMap<usize, StateChange>, port: usize) -> (s: SubnetState)
    ensures
        s == level(changes@, port),
{
    broadcast use vstd::std_specs::hash::group_hash_axioms;

    match changes.get(&port) {
        Some(change) => change.current,
        None => SubnetState::Off,
    }
}

/// Whether `changes` reports a rising edge on `port`.
pub fn port_rising(changes: &HashMap<usize, StateChange>, port: usize) -> (b: bool)
    ensures
        b == rising_at(changes@, port),
{
    broadcast use vstd::std_specs::hash::group_hash_axioms;

    match changes.get(&port) {
        Some(change) => change.rising(),
        None => false,
    }
}

/// A logic element with a fixed, typed set of ports.
///
/// The model of a component is its port typing, one retained bit, and the
/// press-sensitive areas it offers. Evaluation and the press and release of
/// an area are the only ways the retained bit changes; the typing and the
/// areas never change.
///
/// The interactive capability is optional. A component says whether it has
/// it by the number of its areas, and one that has none ignores every press
/// and release. The press and the release are methods of every component,
/// so that they reach one whose type is not known; the types that do have
/// the capability are those that implement [`Pokeable`].
pub trait Component {
    /// The port typing: one entry per port, in port order.
    spec fn port_types(&self) -> Seq<PortType>;

    /// The retained bit.
    spec fn retained(&self) -> bool;

    /// The retained bit after an evaluation on `changes`.
    spec fn next_retained(&self, changes: Map<usize, StateChange>) -> bool;

    /// The output values an evaluation on `changes` hands out, by port.
    spec fn emitted(&self, changes: Map<usize, StateChange>) -> Map<usize, SubnetState>;

    /// The number of independent press-sensitive areas; zero for a component
    /// without the interactive capability.
    spec fn areas(&self) -> i32;

    /// The retained bit after a press on `area`.
    spec fn pressed(&self, area: i32) -> bool;

    /// The retained bit after a release of `area`.
    spec fn released(&self, area: i32) -> bool;

    /// The number of ports.
    fn ports(&self) -> (n: usize)
        ensures
            n == self.port_types().len(),
    ;

    /// The type of port `port`, if the component has such a port.
    fn port_type(&self, port: usize) -> (t: Option<PortType>)
        ensures
            t == port_type_at(self.port_types(), port),
    ;

    /// One tick: takes the change records of the input ports whose subnet
    /// changed and gives the values of the output ports. Only output ports
    /// get a value.
    fn evaluate(&mut self, data: HashMap<usize, StateChange>) -> (out: HashMap<
        usize,
        SubnetState,
    >)
        ensures
            out@ == old(self).emitted(data@),
            forall|port: usize| #[trigger]
                out@.contains_key(port) ==> is_output(old(self).port_types(), port),
            final(self).retained() == old(self).next_retained(data@),
            final(self).port_types() == old(self).port_types(),
            final(self).areas() == old(self).areas(),
    ;

    /// The number of input ports.
    fn inputs(&self) -> (n: usize)
        ensures
            n == count_ports(self.port_types(), PortType::Input),
    {
        let total = self.ports();
        let mut n: usize = 0;
        let mut port: usize = 0;
        while port < total
            invariant
                total == self.port_types().len(),
                port <= total,
                n <= port,
                n == count_ports(self.port_types().take(port as int), PortType::Input),
            decreases total - port,
        {
            proof {
                let types = self.port_types();
                assert(types.take(port + 1).drop_last() == types.take(port as int));
            }
            match self.port_type(port) {
                Some(PortType::Input) => {
                    n = n + 1;
                },
                _ => {},
            }
            port = port + 1;
        }
        proof {
            let types = self.port_types();
            assert(types.take(total as int) == types);
        }
        n
    }

    /// The number of output ports.
    fn outputs(&self) -> (n: usize)
        ensures
            n == count_ports(self.port_types(), PortType::Output),
    {
        let total = self.ports();
        let mut n: usize = 0;
        let mut port: usize = 0;
        while port < total
            invariant
                total == self.port_types().len(),
                port <= total,
                n <= port,
                n == count_ports(self.port_types().take(port as int), PortType::Output),
            decreases total - port,
        {
            proof {
                let types = self.port_types();
                assert(types.take(port + 1).drop_last() == types.take(port as int));
            }
            match self.port_type(port) {
                Some(PortType::Output) => {
                    n = n + 1;
                },
                _ => {},
            }
            port = port + 1;
        }
        proof {
            let types = self.port_types();
            assert(types.take(total as int) == types);
        }
        n
    }

    /// The number of press-sensitive areas; a component is interactive
    /// exactly when this is positive.
    fn pokeable_areas(&self) -> (n: i32)
        ensures
            n == self.areas(),
    ;

    /// A press on `area` begins. An area that the component does not have
    /// is ignored.
    fn poke_start(&mut self, area: i32)
        ensures
            final(self).retained() == old(self).pressed(area),
            !(0 <= area < old(self).areas()) ==> final(self).retained() == old(self).retained(),
            final(self).port_types() == old(self).port_types(),
            final(self).areas() == old(self).areas(),
    ;

    /// The press on `area` ends. An area that the component does not have
    /// is ignored.
    fn poke_end(&mut self, area: i32)
        ensures
            final(self).retained() == old(self).released(area),
            !(0 <= area < old(self).areas()) ==> final(self).retained() == old(self).retained(),
            final(self).port_types() == old(self).port_types(),
            final(self).areas() == old(self).areas(),
    ;
}

/// The interactive capability: a component that offers at least one
/// press-sensitive area.
pub trait Pokeable: Component {
    /// What makes the component interactive.
    proof fn lemma_has_areas(&self)
        ensures
            self.areas() > 0,
    ;
}

/// The typing of a sink: one input.
pub open spec fn sink_ports() -> Seq<PortType> {
    seq![PortType::Input]
}

/// The typing of a gate with two inputs and one output.
pub open spec fn gate_ports() -> Seq<PortType> {
    seq![PortType::Input, PortType::Input, PortType::Output]
}

/// What an AND gate hands out: on port 2, `On` where both inputs are truthy
/// and `Off` where they are not.
pub open spec fn and_output(changes: Map<usize, StateChange>) -> Map<usize, SubnetState> {
    map![2usize => SubnetState::of(
        level(changes, 0).spec_truthy() && level(changes, 1).spec_truthy(),
    )]
}

/// A sink that shows the value of one subnet: one input, no outputs, nothing
/// retained.
#[derive(Debug)]
pub struct Output {}

impl Component for Output {
    open spec fn port_types(&self) -> Seq<PortType> {
        sink_ports()
    }

    open spec fn retained(&self) -> bool {
        false
    }

    open spec fn next_retained(&self, changes: Map<usize, StateChange>) -> bool {
        false
    }

    open spec fn emitted(&self, changes: Map<usize, StateChange>) -> Map<usize, SubnetState> {
        Map::empty()
    }

    open spec fn areas(&self) -> i32 {
        0
    }

    open spec fn pressed(&self, area: i32) -> bool {
        false
    }

    open spec fn released(&self, area: i32) -> bool {
        false
    }

    fn ports(&self) -> (n: usize) {
        1
    }

    fn port_type(&self, port: usize) -> (t: Option<PortType>) {
        match port {
            0 => Some(PortType::Input),
            _ => None,
        }
    }

    fn evaluate(&mut self, _data: HashMap<usize, StateChange>) -> (out: HashMap<
        usize,
        SubnetState,
    >) {
        HashMap::new()
    }

    fn pokeable_areas(&self) -> (n: i32) {
        0
    }

    fn poke_start(&mut self, _area: i32) {
    }

    fn poke_end(&mut self, _area: i32) {
    }
}

/// An AND gate: two inputs, one output, nothing retained.
#[derive(Debug)]
pub struct AND {}

impl Component for AND {
    open spec fn port_types(&self) -> Seq<PortType> {
        gate_ports()
    }

    open spec fn retained(&self) -> bool {
        false
    }

    open spec fn next_retained(&self, changes: Map<usize, StateChange>) -> bool {
        false
    }

    open spec fn emitted(&self, changes: Map<usize, StateChange>) -> Map<usize, SubnetState> {
        and_output(changes)
    }

    open spec fn areas(&self) -> i32 {
        0
    }

    open spec fn pressed(&self, area: i32) -> bool {
        false
    }

    open spec fn released(&self, area: i32) -> bool {
        false
    }

    fn ports(&self) -> (n: usize) {
        3
    }

    fn port_type(&self, port: usize) -> (t: Option<PortType>) {
        match port {
            0 | 1 => Some(PortType::Input),
            2 => Some(PortType::Output),
            _ => None,
        }
    }

    fn evaluate(&mut self, data: HashMap<usize, StateChange>) -> (out: HashMap<
        usize,
        SubnetState,
    >) {
        let a = port_or_default(&data, 0);
        let b = port_or_default(&data, 1);
        let mut out = HashMap::new();
        out.insert(2, SubnetState::from_bit(a.truthy() && b.truthy()));
        out
    }

    fn pokeable_areas(&self) -> (n: i32) {
        0
    }

    fn poke_start(&mut self, _area: i32) {
    }

    fn poke_end(&mut self, _area: i32) {
    }
}

/// A boxed component is the component in the box.
impl<T: Component + ?Sized> Component for Box<T> {
    open spec fn port_types(&self) -> Seq<PortType> {
        (**self).port_types()
    }

    open spec fn retained(&self) -> bool {
        (**self).retained()
    }

    open spec fn next_retained(&self, changes: Map<usize, StateChange>) -> bool {
        (**self).next_retained(changes)
    }

    open spec fn emitted(&self, changes: Map<usize, StateChange>) -> Map<usize, SubnetState> {
        (**self).emitted(changes)
    }

    open spec fn areas(&self) -> i32 {
        (**self).areas()
    }

    open spec fn pressed(&self, area: i32) -> bool {
        (**self).pressed(area)
    }

    open spec fn released(&self, area: i32) -> bool {
        (**self).released(area)
    }

    fn ports(&self) -> (n: usize) {
        (**self).ports()
    }

    fn port_type(&self, port: usize) -> (t: Option<PortType>) {
        (**self).port_type(port)
    }

    fn evaluate(&mut self, data: HashMap<usize, StateChange>) -> (out: HashMap<
        usize,
        SubnetState,
    >) {
        (**self).evaluate(data)
    }

    fn inputs(&self) -> (n: usize) {
        (**self).inputs()
    }

    fn outputs(&self) -> (n: usize) {
        (**self).outputs()
    }

    fn pokeable_areas(&self) -> (n: i32) {
        (**self).pokeable_areas()
    }

    fn poke_start(&mut self, area: i32) {
        (**self).poke_start(area)
    }

    fn poke_end(&mut self, area: i32) {
        (**self).poke_end(area)
    }
}

} // verus!
