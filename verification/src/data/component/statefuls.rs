//! Components that retain a bit between evaluations: a constant source, a
//! momentary button, a free-running clock and the D, T, JK and SR flip-flops.

use std::collections::HashMap;
use vstd::prelude::*;

use crate::data::component::{
    is_output, level, port_or_default, port_rising, port_type_at, rising_at, Component, Pokeable,
    PortType, StateChange,
};
use crate::data::subnet::SubnetState;

verus! {

broadcast use vstd::std_specs::hash::group_hash_axioms;

/// The typing of a component whose only port is an output.
pub open spec fn source_ports() -> Seq<PortType> {
    seq![PortType::Output]
}

/// The typing of a flip-flop with one data input: data, clock, disable, then
/// Q and its inverse.
pub open spec fn latch_ports() -> Seq<PortType> {
    seq![PortType::Input, PortType::Input, PortType::Input, PortType::Output, PortType::Output]
}

/// The typing of a flip-flop with two control inputs: the two controls,
/// clock, disable, then Q and its inverse.
pub open spec fn dual_latch_ports() -> Seq<PortType> {
    seq![
        PortType::Input,
        PortType::Input,
        PortType::Input,
        PortType::Input,
        PortType::Output,
        PortType::Output,
    ]
}

/// What a source hands out: its bit on port 0.
pub open spec fn source_output(bit: bool) -> Map<usize, SubnetState> {
    map![0usize => SubnetState::of(bit)]
}

/// What a flip-flop hands out: Q on port `q` and its inverse on the port
/// after it.
pub open spec fn q_outputs(q: usize, bit: bool) -> Map<usize, SubnetState> {
    map![q => SubnetState::of(bit), (q + 1) as usize => SubnetState::of(!bit)]
}

/// Whether a flip-flop acts on its inputs this tick: its clock port shows a
/// rising edge and its disable port is not `On`.
pub open spec fn clocked(changes: Map<usize, StateChange>, clock: usize, disable: usize) -> bool {
    rising_at(changes, clock) && level(changes, disable) != SubnetState::On
}

/// The D rule: on a qualifying edge `On` sets, `Off` resets, anything else
/// holds.
pub open spec fn d_next(bit: bool, changes: Map<usize, StateChange>) -> bool {
    if clocked(changes, 1, 2) {
        match level(changes, 0) {
            SubnetState::On => true,
            SubnetState::Off => false,
            _ => bit,
        }
    } else {
        bit
    }
}

/// The T rule: on a qualifying edge a truthy T toggles.
pub open spec fn t_next(bit: bool, changes: Map<usize, StateChange>) -> bool {
    if clocked(changes, 1, 2) && level(changes, 0).spec_truthy() {
        !bit
    } else {
        bit
    }
}

/// The JK rule: on a qualifying edge J alone sets, K alone resets, both
/// toggle and neither holds.
pub open spec fn jk_next(bit: bool, changes: Map<usize, StateChange>) -> bool {
    let j = level(changes, 0);
    let k = level(changes, 1);
    if clocked(changes, 2, 3) {
        if j.spec_truthy() && k.spec_falsy() {
            true
        } else if j.spec_falsy() && k.spec_truthy() {
            false
        } else if j.spec_truthy() && k.spec_truthy() {
            !bit
        } else {
            bit
        }
    } else {
        bit
    }
}

/// The SR rule: on a qualifying edge S alone sets and R alone resets; both
/// or neither hold.
pub open spec fn sr_next(bit: bool, changes: Map<usize, StateChange>) -> bool {
    let s = level(changes, 0);
    let r = level(changes, 1);
    if clocked(changes, 2, 3) {
        if s.spec_truthy() && r.spec_falsy() {
            true
        } else if s.spec_falsy() && r.spec_truthy() {
            false
        } else {
            bit
        }
    } else {
        bit
    }
}

/// The bit after a gesture that toggles area 0 and ignores every other area.
pub open spec fn toggled(bit: bool, area: i32) -> bool {
    if area == 0 {
        !bit
    } else {
        bit
    }
}

/// The bit after a gesture that forces area 0 to `to` and ignores every
/// other area.
pub open spec fn forced(bit: bool, area: i32, to: bool) -> bool {
    if area == 0 {
        to
    } else {
        bit
    }
}

fn emit_source(bit: bool) -> (out: HashMap<usize, SubnetState>)
    ensures
        out@ == source_output(bit),
{
    let mut out = HashMap::new();
    out.insert(0, SubnetState::from_bit(bit));
    out
}

fn emit_q(q: usize, bit: bool) -> (out: HashMap<usize, SubnetState>)
    requires
        q < usize::MAX,
    ensures
        out@ == q_outputs(q, bit),
{
    let mut out = HashMap::new();
    out.insert(q, SubnetState::from_bit(bit));
    out.insert(q + 1, SubnetState::from_bit(!bit));
    out
}

fn source_port_type(port: usize) -> (t: Option<PortType>)
    ensures
        t == port_type_at(source_ports(), port),
{
    match port {
        0 => Some(PortType::Output),
        _ => None,
    }
}

fn latch_port_type(port: usize) -> (t: Option<PortType>)
    ensures
        t == port_type_at(latch_ports(), port),
{
    match port {
        0..=2 => Some(PortType::Input),
        3 | 4 => Some(PortType::Output),
        _ => None,
    }
}

fn dual_latch_port_type(port: usize) -> (t: Option<PortType>)
    ensures
        t == port_type_at(dual_latch_ports(), port),
{
    match port {
        0..=3 => Some(PortType::Input),
        4 | 5 => Some(PortType::Output),
        _ => None,
    }
}

/// A source whose value never changes.
#[derive(Debug)]
pub struct Constant {
    state: bool,
}

impl Constant {
    /// With the bit cleared.
    pub fn new() -> (c: Self)
        ensures
            !c.retained(),
    {
        Self { state: false }
    }
}

impl Component for Constant {
    closed spec fn retained(&self) -> bool {
        self.state
    }

    open spec fn port_types(&self) -> Seq<PortType> {
        source_ports()
    }

    open spec fn next_retained(&self, changes: Map<usize, StateChange>) -> bool {
        self.retained()
    }

    open spec fn emitted(&self, changes: Map<usize, StateChange>) -> Map<usize, SubnetState> {
        source_output(self.retained())
    }

    open spec fn areas(&self) -> i32 {
        0
    }

    open spec fn pressed(&self, area: i32) -> bool {
        self.retained()
    }

    open spec fn released(&self, area: i32) -> bool {
        self.retained()
    }

    fn ports(&self) -> (n: usize) {
        1
    }

    fn port_type(&self, port: usize) -> (t: Option<PortType>) {
        source_port_type(port)
    }

    fn evaluate(&mut self, _data: HashMap<usize, StateChange>) -> (out: HashMap<
        usize,
        SubnetState,
    >) {
        emit_source(self.state)
    }

    fn pokeable_areas(&self) -> (n: i32) {
        0
    }

    fn poke_start(&mut self, _area: i32) {
    }

    fn poke_end(&mut self, _area: i32) {
    }
}

/// A momentary push button: high while it is held down.
#[derive(Debug)]
pub struct Button {
    state: bool,
}

impl Button {
    /// With the bit cleared.
    pub fn new() -> (c: Self)
        ensures
            !c.retained(),
    {
        Self { state: false }
    }
}

impl Pokeable for Button {
    proof fn lemma_has_areas(&self) {
    }
}

impl Component for Button {
    closed spec fn retained(&self) -> bool {
        self.state
    }

    open spec fn port_types(&self) -> Seq<PortType> {
        source_ports()
    }

    open spec fn next_retained(&self, changes: Map<usize, StateChange>) -> bool {
        self.retained()
    }

    open spec fn emitted(&self, changes: Map<usize, StateChange>) -> Map<usize, SubnetState> {
        source_output(self.retained())
    }

    open spec fn areas(&self) -> i32 {
        1
    }

    open spec fn pressed(&self, area: i32) -> bool {
        forced(self.retained(), area, true)
    }

    open spec fn released(&self, area: i32) -> bool {
        forced(self.retained(), area, false)
    }

    fn ports(&self) -> (n: usize) {
        1
    }

    fn port_type(&self, port: usize) -> (t: Option<PortType>) {
        source_port_type(port)
    }

    fn evaluate(&mut self, _data: HashMap<usize, StateChange>) -> (out: HashMap<
        usize,
        SubnetState,
    >) {
        emit_source(self.state)
    }

    fn pokeable_areas(&self) -> (n: i32) {
        1
    }

    fn poke_start(&mut self, area: i32) {
        if area == 0 {
            self.state = true;
        }
    }

    fn poke_end(&mut self, area: i32) {
        if area == 0 {
            self.state = false;
        }
    }
}

/// A free-running clock: every evaluation hands out the retained bit and
/// then flips it.
#[derive(Debug)]
pub struct Clock {
    state: bool,
}

impl Clock {
    /// With the bit cleared.
    pub fn new() -> (c: Self)
        ensures
            !c.retained(),
    {
        Self { state: false }
    }
}

impl Pokeable for Clock {
    proof fn lemma_has_areas(&self) {
    }
}

impl Component for Clock {
    closed spec fn retained(&self) -> bool {
        self.state
    }

    open spec fn port_types(&self) -> Seq<PortType> {
        source_ports()
    }

    open spec fn next_retained(&self, changes: Map<usize, StateChange>) -> bool {
        !self.retained()
    }

    open spec fn emitted(&self, changes: Map<usize, StateChange>) -> Map<usize, SubnetState> {
        source_output(self.retained())
    }

    open spec fn areas(&self) -> i32 {
        1
    }

    open spec fn pressed(&self, area: i32) -> bool {
        toggled(self.retained(), area)
    }

    open spec fn released(&self, area: i32) -> bool {
        toggled(self.retained(), area)
    }

    fn ports(&self) -> (n: usize) {
        1
    }

    fn port_type(&self, port: usize) -> (t: Option<PortType>) {
        source_port_type(port)
    }

    fn evaluate(&mut self, _data: HashMap<usize, StateChange>) -> (out: HashMap<
        usize,
        SubnetState,
    >) {
        let out = emit_source(self.state);
        self.state = !self.state;
        out
    }

    fn pokeable_areas(&self) -> (n: i32) {
        1
    }

    fn poke_start(&mut self, area: i32) {
        if area == 0 {
            self.state = !self.state;
        }
    }

    fn poke_end(&mut self, area: i32) {
        if area == 0 {
            self.state = !self.state;
        }
    }
}

/// A D flip-flop. Port 0 is D, 1 the clock, 2 disable, 3 Q and 4 its inverse.
#[derive(Debug)]
pub struct DFlipFlop {
    state: bool,
}

impl DFlipFlop {
    /// With the bit cleared.
    pub fn new() -> (c: Self)
        ensures
            !c.retained(),
    {
        Self { state: false }
    }
}

impl Pokeable for DFlipFlop {
    proof fn lemma_has_areas(&self) {
    }
}

impl Component for DFlipFlop {
    closed spec fn retained(&self) -> bool {
        self.state
    }

    open spec fn port_types(&self) -> Seq<PortType> {
        latch_ports()
    }

    open spec fn next_retained(&self, changes: Map<usize, StateChange>) -> bool {
        d_next(self.retained(), changes)
    }

    open spec fn emitted(&self, changes: Map<usize, StateChange>) -> Map<usize, SubnetState> {
        q_outputs(3, d_next(self.retained(), changes))
    }

    open spec fn areas(&self) -> i32 {
        1
    }

    open spec fn pressed(&self, area: i32) -> bool {
        self.retained()
    }

    open spec fn released(&self, area: i32) -> bool {
        toggled(self.retained(), area)
    }

    fn ports(&self) -> (n: usize) {
        5
    }

    fn port_type(&self, port: usize) -> (t: Option<PortType>) {
        latch_port_type(port)
    }

    fn evaluate(&mut self, data: HashMap<usize, StateChange>) -> (out: HashMap<
        usize,
        SubnetState,
    >) {
        let d = port_or_default(&data, 0);
        let clock = port_rising(&data, 1);
        let disable = port_or_default(&data, 2);

        if clock && disable != SubnetState::On {
            if d == SubnetState::On {
                self.state = true;
            } else if d == SubnetState::Off {
                self.state = false;
            }
        }

        emit_q(3, self.state)
    }

    fn pokeable_areas(&self) -> (n: i32) {
        1
    }

    fn poke_start(&mut self, _area: i32) {
    }

    fn poke_end(&mut self, area: i32) {
        if area == 0 {
            self.state = !self.state;
        }
    }
}

/// A T flip-flop. Port 0 is T, 1 the clock, 2 disable, 3 Q and 4 its inverse.
#[derive(Debug)]
pub struct TFlipFlop {
    state: bool,
}

impl TFlipFlop {
    /// With the bit cleared.
    pub fn new() -> (c: Self)
        ensures
            !c.retained(),
    {
        Self { state: false }
    }
}

impl Pokeable for TFlipFlop {
    proof fn lemma_has_areas(&self) {
    }
}

impl Component for TFlipFlop {
    closed spec fn retained(&self) -> bool {
        self.state
    }

    open spec fn port_types(&self) -> Seq<PortType> {
        latch_ports()
    }

    open spec fn next_retained(&self, changes: Map<usize, StateChange>) -> bool {
        t_next(self.retained(), changes)
    }

    open spec fn emitted(&self, changes: Map<usize, StateChange>) -> Map<usize, SubnetState> {
        q_outputs(3, t_next(self.retained(), changes))
    }

    open spec fn areas(&self) -> i32 {
        1
    }

    open spec fn pressed(&self, area: i32) -> bool {
        self.retained()
    }

    open spec fn released(&self, area: i32) -> bool {
        toggled(self.retained(), area)
    }

    fn ports(&self) -> (n: usize) {
        5
    }

    fn port_type(&self, port: usize) -> (t: Option<PortType>) {
        latch_port_type(port)
    }

    fn evaluate(&mut self, data: HashMap<usize, StateChange>) -> (out: HashMap<
        usize,
        SubnetState,
    >) {
        let t = port_or_default(&data, 0);
        let clock = port_rising(&data, 1);
        let disable = port_or_default(&data, 2);

        if clock && disable != SubnetState::On {
            if t.truthy() {
                self.state = !self.state;
            }
        }

        emit_q(3, self.state)
    }

    fn pokeable_areas(&self) -> (n: i32) {
        1
    }

    fn poke_start(&mut self, _area: i32) {
    }

    fn poke_end(&mut self, area: i32) {
        if area == 0 {
            self.state = !self.state;
        }
    }
}

/// A JK flip-flop. Port 0 is J, 1 is K, 2 the clock, 3 disable, 4 Q and 5 its
/// inverse.
#[derive(Debug)]
pub struct JKFlipFlop {
    state: bool,
}

impl JKFlipFlop {
    /// With the bit cleared.
    pub fn new() -> (c: Self)
        ensures
            !c.retained(),
    {
        Self { state: false }
    }
}

impl Pokeable for JKFlipFlop {
    proof fn lemma_has_areas(&self) {
    }
}

impl Component for JKFlipFlop {
    closed spec fn retained(&self) -> bool {
        self.state
    }

    open spec fn port_types(&self) -> Seq<PortType> {
        dual_latch_ports()
    }

    open spec fn next_retained(&self, changes: Map<usize, StateChange>) -> bool {
        jk_next(self.retained(), changes)
    }

    open spec fn emitted(&self, changes: Map<usize, StateChange>) -> Map<usize, SubnetState> {
        q_outputs(4, jk_next(self.retained(), changes))
    }

    open spec fn areas(&self) -> i32 {
        1
    }

    open spec fn pressed(&self, area: i32) -> bool {
        self.retained()
    }

    open spec fn released(&self, area: i32) -> bool {
        toggled(self.retained(), area)
    }

    fn ports(&self) -> (n: usize) {
        6
    }

    fn port_type(&self, port: usize) -> (t: Option<PortType>) {
        dual_latch_port_type(port)
    }

    fn evaluate(&mut self, data: HashMap<usize, StateChange>) -> (out: HashMap<
        usize,
        SubnetState,
    >) {
        let j = port_or_default(&data, 0);
        let k = port_or_default(&data, 1);
        let clock = port_rising(&data, 2);
        let disable = port_or_default(&data, 3);

        if clock && disable != SubnetState::On {
            if j.truthy() && k.falsy() {
                self.state = true;
            } else if j.falsy() && k.truthy() {
                self.state = false;
            } else if j.truthy() && k.truthy() {
                self.state = !self.state;
            }
        }

        emit_q(4, self.state)
    }

    fn pokeable_areas(&self) -> (n: i32) {
        1
    }

    fn poke_start(&mut self, _area: i32) {
    }

    fn poke_end(&mut self, area: i32) {
        if area == 0 {
            self.state = !self.state;
        }
    }
}

/// An SR flip-flop. Port 0 is S, 1 is R, 2 the clock, 3 disable, 4 Q and 5 its
/// inverse.
#[derive(Debug)]
pub struct SRFlipFlop {
    state: bool,
}

impl SRFlipFlop {
    /// With the bit cleared.
    pub fn new() -> (c: Self)
        ensures
            !c.retained(),
    {
        Self { state: false }
    }
}

impl Pokeable for SRFlipFlop {
    proof fn lemma_has_areas(&self) {
    }
}

impl Component for SRFlipFlop {
    closed spec fn retained(&self) -> bool {
        self.state
    }

    open spec fn port_types(&self) -> Seq<PortType> {
        dual_latch_ports()
    }

    open spec fn next_retained(&self, changes: Map<usize, StateChange>) -> bool {
        sr_next(self.retained(), changes)
    }

    open spec fn emitted(&self, changes: Map<usize, StateChange>) -> Map<usize, SubnetState> {
        q_outputs(4, sr_next(self.retained(), changes))
    }

    open spec fn areas(&self) -> i32 {
        1
    }

    open spec fn pressed(&self, area: i32) -> bool {
        self.retained()
    }

    open spec fn released(&self, area: i32) -> bool {
        toggled(self.retained(), area)
    }

    fn ports(&self) -> (n: usize) {
        6
    }

    fn port_type(&self, port: usize) -> (t: Option<PortType>) {
        dual_latch_port_type(port)
    }

    fn evaluate(&mut self, data: HashMap<usize, StateChange>) -> (out: HashMap<
        usize,
        SubnetState,
    >) {
        let s = port_or_default(&data, 0);
        let r = port_or_default(&data, 1);
        let clock = port_rising(&data, 2);
        let disable = port_or_default(&data, 3);

        if clock && disable != SubnetState::On {
            if s.truthy() && r.falsy() {
                self.state = true;
            } else if s.falsy() && r.truthy() {
                self.state = false;
            }
        }

        emit_q(4, self.state)
    }

    fn pokeable_areas(&self) -> (n: i32) {
        1
    }

    fn poke_start(&mut self, _area: i32) {
    }

    fn poke_end(&mut self, area: i32) {
        if area == 0 {
            self.state = !self.state;
        }
    }
}

/// No edge, no latch: a flip-flop whose clock port shows no rising edge, or
/// whose disable port is `On`, keeps its bit, whatever its other inputs say.
pub proof fn lemma_hold_unless_clocked(bit: bool, changes: Map<usize, StateChange>)
    ensures
        !clocked(changes, 1, 2) ==> d_next(bit, changes) == bit && t_next(bit, changes) == bit,
        !clocked(changes, 2, 3) ==> jk_next(bit, changes) == bit && sr_next(bit, changes) == bit,
        !rising_at(changes, 1) || level(changes, 2) == SubnetState::On ==> !clocked(changes, 1, 2),
        !rising_at(changes, 2) || level(changes, 3) == SubnetState::On ==> !clocked(changes, 2, 3),
{
}

/// A D flip-flop whose clock port shows no rising edge keeps Q and hands
/// out the same pair of values as before, even where D is asserted.
pub proof fn lemma_d_needs_rising_edge(flop: DFlipFlop, changes: Map<usize, StateChange>)
    requires
        !rising_at(changes, 1),
    ensures
        flop.next_retained(changes) == flop.retained(),
        flop.emitted(changes) == q_outputs(3, flop.retained()),
{
}

/// A record whose value did not change is no rising edge, and neither is a
/// missing one.
pub proof fn lemma_steady_is_no_edge(changes: Map<usize, StateChange>, port: usize)
    requires
        changes.contains_key(port) ==> changes[port].previous == changes[port].current,
    ensures
        !rising_at(changes, port),
{
}

/// Toggle round trip: a JK flip-flop that sees two qualifying rising edges
/// in a row, both with J and K truthy, has its first bit again.
pub proof fn lemma_jk_toggle_round_trip(
    start: JKFlipFlop,
    between: JKFlipFlop,
    first: Map<usize, StateChange>,
    second: Map<usize, StateChange>,
)
    requires
        clocked(first, 2, 3),
        level(first, 0).spec_truthy() && level(first, 1).spec_truthy(),
        between.retained() == start.next_retained(first),
        clocked(second, 2, 3),
        level(second, 0).spec_truthy() && level(second, 1).spec_truthy(),
    ensures
        between.retained() != start.retained(),
        between.next_retained(second) == start.retained(),
        between.emitted(second) == q_outputs(4, start.retained()),
{
}

/// A clock is not idempotent: two evaluations in a row hand out opposite
/// values on port 0, whatever they are evaluated on.
pub proof fn lemma_clock_alternates(
    start: Clock,
    then: Clock,
    first: Map<usize, StateChange>,
    second: Map<usize, StateChange>,
)
    requires
        then.retained() == start.next_retained(first),
    ensures
        start.emitted(first)[0] == SubnetState::of(start.retained()),
        then.emitted(second)[0] == SubnetState::of(!start.retained()),
        start.emitted(first)[0] != then.emitted(second)[0],
{
}

/// Every evaluation hands out a value for every output port, and for no
/// other port.
pub proof fn lemma_every_output_is_emitted(bit: bool, port: usize)
    ensures
        source_output(bit).contains_key(port) <==> is_output(source_ports(), port),
        q_outputs(3, bit).contains_key(port) <==> is_output(latch_ports(), port),
        q_outputs(4, bit).contains_key(port) <==> is_output(dual_latch_ports(), port),
{
}

/// The two outputs of a flip-flop are complementary: one is `On` and the
/// other `Off`.
pub proof fn lemma_q_outputs_complementary(q: usize, bit: bool)
    requires
        q < usize::MAX,
    ensures
        q_outputs(q, bit).dom() == set![q, (q + 1) as usize],
        q_outputs(q, bit)[q] == SubnetState::of(bit),
        q_outputs(q, bit)[(q + 1) as usize] == SubnetState::of(!bit),
        q_outputs(q, bit)[q] != q_outputs(q, bit)[(q + 1) as usize],
{
    assert(q_outputs(q, bit).dom() =~= set![q, (q + 1) as usize]);
}

} // verus!
