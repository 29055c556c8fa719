use std::collections::HashMap;

use logik_simulation::data::component::statefuls::{
    Button, Clock, Constant, DFlipFlop, JKFlipFlop, SRFlipFlop, TFlipFlop,
};
use logik_simulation::data::component::{
    Component, Output, Pokeable, PortType, StateChange, AND,
};
use logik_simulation::data::subnet::{Subnet, SubnetState};

use logik_simulation::data::subnet::SubnetState::{Error, Floating, Off, On};

fn changes(records: Vec<(usize, SubnetState, SubnetState)>) -> HashMap<usize, StateChange> {
    let mut map = HashMap::new();
    for (port, previous, current) in records {
        map.insert(port, StateChange::new(previous, current));
    }
    map
}

fn values(entries: Vec<(usize, SubnetState)>) -> HashMap<usize, SubnetState> {
    entries.into_iter().collect()
}

fn q_pair(q: usize, bit: bool) -> HashMap<usize, SubnetState> {
    if bit {
        values(vec![(q, On), (q + 1, Off)])
    } else {
        values(vec![(q, Off), (q + 1, On)])
    }
}

/// A qualifying rising edge for a flip-flop with two control inputs, which
/// read `a` and `b`.
fn edge(a: SubnetState, b: SubnetState) -> HashMap<usize, StateChange> {
    changes(vec![(0, Off, a), (1, Off, b), (2, Off, On)])
}

fn port_types(component: &dyn Component) -> Vec<Option<PortType>> {
    (0..component.ports() + 2).map(|port| component.port_type(port)).collect()
}

/// An evaluation without any record changes no flip-flop, so it shows Q.
fn q_of(flop: &mut dyn Component, q: usize) -> bool {
    let out = flop.evaluate(HashMap::new());
    assert_eq!(out.len(), 2);
    assert_ne!(out[&q], out[&(q + 1)]);
    out[&q] == On
}

#[test]
fn subnet_state_coerces_to_boolean() {
    assert!(On.truthy());
    assert!(!On.falsy());
    for state in [Off, Floating, Error] {
        assert!(!state.truthy());
        assert!(state.falsy());
    }
    assert_eq!(SubnetState::from_bit(true), On);
    assert_eq!(SubnetState::from_bit(false), Off);
}

#[test]
fn subnet_holds_its_value() {
    let mut subnet = Subnet::new();
    assert_eq!(subnet.val(), Floating);
    assert!(subnet.update(On));
    assert_eq!(subnet.val(), On);
    assert!(!subnet.update(On));
    assert!(subnet.update(Off));
    assert_eq!(subnet.val(), Off);
}

#[test]
fn rising_is_exactly_off_to_on() {
    for previous in [Floating, Off, On, Error] {
        for current in [Floating, Off, On, Error] {
            let change = StateChange::new(previous, current);
            assert_eq!(change.previous, previous);
            assert_eq!(change.current, current);
            assert_eq!(change.rising(), previous == Off && current == On);
        }
    }
}

#[test]
fn sources_have_one_output_port() {
    let sources: Vec<Box<dyn Component>> =
        vec![Box::new(Constant::new()), Box::new(Button::new()), Box::new(Clock::new())];
    for source in sources {
        assert_eq!(source.ports(), 1);
        assert_eq!(port_types(&*source), vec![Some(PortType::Output), None, None]);
        assert_eq!(source.inputs(), 0);
        assert_eq!(source.outputs(), 1);
    }
}

#[test]
fn single_input_flip_flops_have_three_inputs_and_two_outputs() {
    let flops: Vec<Box<dyn Component>> =
        vec![Box::new(DFlipFlop::new()), Box::new(TFlipFlop::new())];
    for flop in flops {
        assert_eq!(flop.ports(), 5);
        assert_eq!(
            port_types(&*flop),
            vec![
                Some(PortType::Input),
                Some(PortType::Input),
                Some(PortType::Input),
                Some(PortType::Output),
                Some(PortType::Output),
                None,
                None,
            ]
        );
        assert_eq!(flop.inputs(), 3);
        assert_eq!(flop.outputs(), 2);
    }
}

#[test]
fn double_input_flip_flops_have_four_inputs_and_two_outputs() {
    let flops: Vec<Box<dyn Component>> =
        vec![Box::new(JKFlipFlop::new()), Box::new(SRFlipFlop::new())];
    for flop in flops {
        assert_eq!(flop.ports(), 6);
        assert_eq!(
            port_types(&*flop),
            vec![
                Some(PortType::Input),
                Some(PortType::Input),
                Some(PortType::Input),
                Some(PortType::Input),
                Some(PortType::Output),
                Some(PortType::Output),
                None,
                None,
            ]
        );
        assert_eq!(flop.inputs(), 4);
        assert_eq!(flop.outputs(), 2);
    }
}

#[test]
fn out_of_range_port_has_no_type() {
    assert_eq!(Constant::new().port_type(1), None);
    assert_eq!(DFlipFlop::new().port_type(5), None);
    assert_eq!(JKFlipFlop::new().port_type(6), None);
    assert_eq!(SRFlipFlop::new().port_type(usize::MAX), None);
}

#[test]
fn gates_have_their_port_shapes() {
    let output = Output {};
    assert_eq!(output.ports(), 1);
    assert_eq!(port_types(&output), vec![Some(PortType::Input), None, None]);
    assert_eq!((output.inputs(), output.outputs()), (1, 0));

    let and = AND {};
    assert_eq!(and.ports(), 3);
    assert_eq!(
        port_types(&and),
        vec![Some(PortType::Input), Some(PortType::Input), Some(PortType::Output), None, None]
    );
    assert_eq!((and.inputs(), and.outputs()), (2, 1));
}

#[test]
fn gates_evaluate_without_state() {
    let mut output = Output {};
    assert_eq!(output.evaluate(changes(vec![(0, Off, On)])), HashMap::new());

    let mut and = AND {};
    assert_eq!(and.evaluate(changes(vec![(0, Off, On), (1, Off, On)])), values(vec![(2, On)]));
    assert_eq!(and.evaluate(changes(vec![(0, Off, On), (1, On, Off)])), values(vec![(2, Off)]));
    assert_eq!(and.evaluate(changes(vec![(0, Off, On)])), values(vec![(2, Off)]));
    assert_eq!(
        and.evaluate(changes(vec![(0, On, On), (1, Off, Floating)])),
        values(vec![(2, Off)])
    );
    assert_eq!(and.pokeable_areas(), 0);
}

#[test]
fn constant_emits_its_fixed_value() {
    let mut constant = Constant::new();
    assert_eq!(constant.evaluate(HashMap::new()), values(vec![(0, Off)]));
    assert_eq!(constant.evaluate(changes(vec![(0, Off, On)])), values(vec![(0, Off)]));
    assert_eq!(constant.pokeable_areas(), 0);
    constant.poke_start(0);
    constant.poke_end(0);
    assert_eq!(constant.evaluate(HashMap::new()), values(vec![(0, Off)]));
}

#[test]
fn button_is_on_while_pressed() {
    let mut button = Button::new();
    assert_eq!(button.pokeable_areas(), 1);
    assert_eq!(button.evaluate(HashMap::new()), values(vec![(0, Off)]));
    button.poke_start(0);
    assert_eq!(button.evaluate(HashMap::new()), values(vec![(0, On)]));
    assert_eq!(button.evaluate(HashMap::new()), values(vec![(0, On)]));
    button.poke_end(0);
    assert_eq!(button.evaluate(HashMap::new()), values(vec![(0, Off)]));
}

#[test]
fn button_ignores_out_of_range_areas() {
    let mut button = Button::new();
    for area in [1, -1, i32::MAX, i32::MIN] {
        button.poke_start(area);
        assert_eq!(button.evaluate(HashMap::new()), values(vec![(0, Off)]));
    }
    button.poke_start(0);
    for area in [1, -1, i32::MAX, i32::MIN] {
        button.poke_end(area);
        assert_eq!(button.evaluate(HashMap::new()), values(vec![(0, On)]));
    }
}

#[test]
fn clock_evaluations_alternate() {
    let mut clock = Clock::new();
    let first = clock.evaluate(HashMap::new());
    let second = clock.evaluate(HashMap::new());
    assert_eq!(first, values(vec![(0, Off)]));
    assert_eq!(second, values(vec![(0, On)]));
    assert_ne!(first[&0], second[&0]);
    assert_eq!(clock.evaluate(changes(vec![(0, Off, On)])), values(vec![(0, Off)]));
    assert_eq!(clock.evaluate(HashMap::new()), values(vec![(0, On)]));
}

#[test]
fn clock_toggles_on_press_and_on_release() {
    let mut clock = Clock::new();
    assert_eq!(clock.pokeable_areas(), 1);
    clock.poke_start(0);
    assert_eq!(clock.evaluate(HashMap::new()), values(vec![(0, On)]));
    // the evaluation left the bit cleared
    clock.poke_end(0);
    assert_eq!(clock.evaluate(HashMap::new()), values(vec![(0, On)]));
    clock.poke_start(0);
    clock.poke_end(0);
    assert_eq!(clock.evaluate(HashMap::new()), values(vec![(0, Off)]));
}

#[test]
fn clock_ignores_out_of_range_areas() {
    let mut clock = Clock::new();
    for area in [1, 2, -1, i32::MAX] {
        clock.poke_start(area);
        clock.poke_end(area);
    }
    assert_eq!(clock.evaluate(HashMap::new()), values(vec![(0, Off)]));
}

#[test]
fn d_flip_flop_needs_a_rising_edge() {
    let mut flop = DFlipFlop::new();
    let out = flop.evaluate(changes(vec![(0, On, On), (1, On, On)]));
    assert_eq!(out, q_pair(3, false));
    assert!(!q_of(&mut flop, 3));

    // falling edge, steady low, and an edge from an undriven clock do not latch either
    let no_edges = [(On, Off), (Off, Off), (Floating, On), (Error, On), (Off, Floating)];
    for (previous, current) in no_edges {
        let out = flop.evaluate(changes(vec![(0, On, On), (1, previous, current)]));
        assert_eq!(out, q_pair(3, false));
    }
    // no record for the clock port at all
    assert_eq!(flop.evaluate(changes(vec![(0, Off, On)])), q_pair(3, false));

    // the same data with a rising edge does latch
    assert_eq!(flop.evaluate(changes(vec![(0, On, On), (1, Off, On)])), q_pair(3, true));
    // and then holds without an edge, though D is low
    assert_eq!(flop.evaluate(changes(vec![(0, On, Off), (1, On, On)])), q_pair(3, true));
}

#[test]
fn d_flip_flop_sets_resets_and_holds() {
    let mut flop = DFlipFlop::new();
    assert_eq!(flop.evaluate(changes(vec![(0, Off, On), (1, Off, On)])), q_pair(3, true));
    for other in [Floating, Error] {
        assert_eq!(flop.evaluate(changes(vec![(0, On, other), (1, Off, On)])), q_pair(3, true));
    }
    assert_eq!(flop.evaluate(changes(vec![(0, On, Off), (1, Off, On)])), q_pair(3, false));
    for other in [Floating, Error] {
        assert_eq!(flop.evaluate(changes(vec![(0, On, other), (1, Off, On)])), q_pair(3, false));
    }
}

#[test]
fn d_flip_flop_reads_missing_data_as_off() {
    let mut flop = DFlipFlop::new();
    assert_eq!(flop.evaluate(changes(vec![(0, Off, On), (1, Off, On)])), q_pair(3, true));
    // no record for D: it reads as Off, so the edge resets
    assert_eq!(flop.evaluate(changes(vec![(1, Off, On)])), q_pair(3, false));
}

#[test]
fn disable_blocks_every_flip_flop() {
    let mut d = DFlipFlop::new();
    assert_eq!(
        d.evaluate(changes(vec![(0, On, On), (1, Off, On), (2, Off, On)])),
        q_pair(3, false)
    );
    let mut t = TFlipFlop::new();
    assert_eq!(
        t.evaluate(changes(vec![(0, On, On), (1, Off, On), (2, On, On)])),
        q_pair(3, false)
    );
    let mut jk = JKFlipFlop::new();
    assert_eq!(
        jk.evaluate(changes(vec![(0, On, On), (1, Off, Off), (2, Off, On), (3, Off, On)])),
        q_pair(4, false)
    );
    let mut sr = SRFlipFlop::new();
    assert_eq!(
        sr.evaluate(changes(vec![(0, On, On), (1, Off, Off), (2, Off, On), (3, On, On)])),
        q_pair(4, false)
    );

    // a disable port that is anything but On does not block
    for disable in [Off, Floating, Error] {
        let mut d = DFlipFlop::new();
        assert_eq!(
            d.evaluate(changes(vec![(0, On, On), (1, Off, On), (2, On, disable)])),
            q_pair(3, true)
        );
        let mut jk = JKFlipFlop::new();
        assert_eq!(
            jk.evaluate(changes(vec![(0, On, On), (1, Off, Off), (2, Off, On), (3, On, disable)])),
            q_pair(4, true)
        );
    }
}

#[test]
fn t_flip_flop_toggles_on_a_truthy_input() {
    let mut flop = TFlipFlop::new();
    assert_eq!(flop.evaluate(changes(vec![(0, On, On), (1, Off, On)])), q_pair(3, true));
    assert_eq!(flop.evaluate(changes(vec![(0, On, On), (1, Off, On)])), q_pair(3, false));
    assert_eq!(flop.evaluate(changes(vec![(0, On, On), (1, Off, On)])), q_pair(3, true));
    for other in [Off, Floating, Error] {
        assert_eq!(flop.evaluate(changes(vec![(0, On, other), (1, Off, On)])), q_pair(3, true));
    }
    // no record for T, and no edge
    assert_eq!(flop.evaluate(changes(vec![(1, Off, On)])), q_pair(3, true));
    assert_eq!(flop.evaluate(changes(vec![(0, On, On), (1, On, On)])), q_pair(3, true));
}

#[test]
fn jk_flip_flop_follows_its_table() {
    let mut flop = JKFlipFlop::new();
    // J alone sets
    assert_eq!(flop.evaluate(edge(On, Off)), q_pair(4, true));
    assert_eq!(flop.evaluate(edge(On, Off)), q_pair(4, true));
    // neither holds
    assert_eq!(flop.evaluate(edge(Off, Off)), q_pair(4, true));
    assert_eq!(flop.evaluate(changes(vec![(2, Off, On)])), q_pair(4, true));
    // K alone resets
    assert_eq!(flop.evaluate(edge(Off, On)), q_pair(4, false));
    assert_eq!(flop.evaluate(changes(vec![(1, Off, On), (2, Off, On)])), q_pair(4, false));
    // both toggle
    assert_eq!(flop.evaluate(edge(On, On)), q_pair(4, true));
    // a value that is neither On nor Off counts as falsy
    assert_eq!(flop.evaluate(edge(Floating, On)), q_pair(4, false));
    assert_eq!(flop.evaluate(edge(On, Error)), q_pair(4, true));
    assert_eq!(flop.evaluate(edge(Error, Floating)), q_pair(4, true));
}

#[test]
fn jk_flip_flop_toggle_round_trip() {
    for start in [false, true] {
        let mut flop = JKFlipFlop::new();
        if start {
            flop.poke_end(0);
        }
        assert_eq!(q_of(&mut flop, 4), start);
        let edge = || changes(vec![(0, On, On), (1, On, On), (2, Off, On)]);
        assert_eq!(flop.evaluate(edge()), q_pair(4, !start));
        assert_eq!(flop.evaluate(edge()), q_pair(4, start));
        assert_eq!(q_of(&mut flop, 4), start);
    }
}

#[test]
fn sr_flip_flop_follows_its_table() {
    let mut flop = SRFlipFlop::new();
    // S alone sets
    assert_eq!(flop.evaluate(edge(On, Off)), q_pair(4, true));
    // both hold
    assert_eq!(flop.evaluate(edge(On, On)), q_pair(4, true));
    // neither holds
    assert_eq!(flop.evaluate(edge(Off, Off)), q_pair(4, true));
    // R alone resets
    assert_eq!(flop.evaluate(edge(Off, On)), q_pair(4, false));
    // both hold, from the other side
    assert_eq!(flop.evaluate(edge(On, On)), q_pair(4, false));
    // a value that is neither On nor Off counts as falsy
    assert_eq!(flop.evaluate(edge(On, Floating)), q_pair(4, true));
    assert_eq!(flop.evaluate(edge(Error, On)), q_pair(4, false));
    // no edge: S alone does nothing
    assert_eq!(flop.evaluate(changes(vec![(0, Off, On), (2, On, On)])), q_pair(4, false));
    assert_eq!(flop.evaluate(changes(vec![(0, Off, On)])), q_pair(4, false));
}

#[test]
fn flip_flops_toggle_on_release_only() {
    let flops: Vec<(Box<dyn Component>, usize)> = vec![
        (Box::new(DFlipFlop::new()), 3),
        (Box::new(TFlipFlop::new()), 3),
        (Box::new(JKFlipFlop::new()), 4),
        (Box::new(SRFlipFlop::new()), 4),
    ];
    for (mut flop, q) in flops {
        assert_eq!(flop.pokeable_areas(), 1);
        flop.poke_start(0);
        assert!(!q_of(&mut *flop, q));
        flop.poke_end(0);
        assert!(q_of(&mut *flop, q));
        flop.poke_start(0);
        assert!(q_of(&mut *flop, q));
        flop.poke_end(0);
        assert!(!q_of(&mut *flop, q));
        for area in [1, -1, 7, i32::MIN] {
            flop.poke_start(area);
            flop.poke_end(area);
            assert!(!q_of(&mut *flop, q));
        }
    }
}

fn areas_of<T: Pokeable>(component: T) -> i32 {
    component.pokeable_areas()
}

#[test]
fn interactive_components_have_one_area() {
    assert_eq!(areas_of(Button::new()), 1);
    assert_eq!(areas_of(Clock::new()), 1);
    assert_eq!(areas_of(DFlipFlop::new()), 1);
    assert_eq!(areas_of(TFlipFlop::new()), 1);
    assert_eq!(areas_of(JKFlipFlop::new()), 1);
    assert_eq!(areas_of(SRFlipFlop::new()), 1);
    // the others have no area at all
    assert_eq!(Constant::new().pokeable_areas(), 0);
    assert_eq!((Output {}).pokeable_areas(), 0);
    assert_eq!((AND {}).pokeable_areas(), 0);
}

#[test]
fn outputs_are_emitted_on_every_evaluation() {
    let mut flop = SRFlipFlop::new();
    for _ in 0..3 {
        assert_eq!(flop.evaluate(HashMap::new()), q_pair(4, false));
    }
    flop.poke_end(0);
    for _ in 0..3 {
        assert_eq!(flop.evaluate(HashMap::new()), q_pair(4, true));
    }
}

#[test]
fn boxed_component_forwards_to_its_content() {
    type Boxed = Box<dyn Component>;
    let mut boxed: Boxed = Box::new(Clock::new());
    assert_eq!(<Boxed as Component>::ports(&boxed), 1);
    assert_eq!(<Boxed as Component>::port_type(&boxed, 0), Some(PortType::Output));
    assert_eq!(<Boxed as Component>::port_type(&boxed, 1), None);
    assert_eq!(<Boxed as Component>::inputs(&boxed), 0);
    assert_eq!(<Boxed as Component>::outputs(&boxed), 1);
    assert_eq!(<Boxed as Component>::pokeable_areas(&boxed), 1);
    assert_eq!(<Boxed as Component>::evaluate(&mut boxed, HashMap::new()), values(vec![(0, Off)]));
    <Boxed as Component>::poke_start(&mut boxed, 0);
    assert_eq!(<Boxed as Component>::evaluate(&mut boxed, HashMap::new()), values(vec![(0, Off)]));
    <Boxed as Component>::poke_end(&mut boxed, 0);
    assert_eq!(<Boxed as Component>::evaluate(&mut boxed, HashMap::new()), values(vec![(0, Off)]));
    assert_eq!(<Boxed as Component>::evaluate(&mut boxed, HashMap::new()), values(vec![(0, On)]));
}
