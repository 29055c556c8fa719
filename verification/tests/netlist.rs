use std::collections::{HashMap, HashSet};

use logik_simulation::data::component::statefuls::{
    Button, Clock, Constant, DFlipFlop, JKFlipFlop,
};
use logik_simulation::data::component::{Component, Output, StateChange, AND};
use logik_simulation::data::subnet::SubnetState;
use logik_simulation::data::{Connection, Data};

type Netlist = Data<Box<dyn Component>>;

fn edges(data: &Netlist) -> HashMap<usize, HashSet<Connection>> {
    let mut map = HashMap::new();
    for (key, connections) in data.edges() {
        let mut set = HashSet::new();
        for connection in connections {
            assert!(set.insert(connection));
        }
        assert!(map.insert(key, set).is_none());
    }
    map
}

fn set(connections: Vec<Connection>) -> HashSet<Connection> {
    connections.into_iter().collect()
}

#[test]
fn test_adding_components() {
    let mut data: Netlist = Data::new();

    data.add_subnet(0);

    assert!(data.add_component(Box::new(Output {}), vec![Some(0)], vec![]).is_ok());

    data.add_subnet(1);
    data.add_subnet(5);

    assert!(data.add_component(Box::new(AND {}), vec![Some(1), Some(5)], vec![Some(0)]).is_ok());

    assert!(data.add_component(Box::new(Output {}), vec![Some(0)], vec![]).is_ok());

    let mut expected = HashMap::new();
    expected.insert(2, set(vec![Connection::Component(3, 0)]));
    expected.insert(10, set(vec![Connection::Component(3, 1)]));
    expected.insert(3, set(vec![Connection::Subnet(0)]));
    expected.insert(0, set(vec![Connection::Component(1, 0), Connection::Component(5, 0)]));
    assert_eq!(edges(&data), expected);

    assert!(data.add_component(Box::new(AND {}), vec![], vec![]).is_err());
}

#[test]
fn test_removing_subnets() {
    let mut data: Netlist = Data::new();

    data.add_subnet(0);
    data.add_subnet(1);

    assert_eq!(edges(&data), HashMap::new());

    assert!(data.add_component(Box::new(Output {}), vec![Some(0)], vec![]).is_ok());

    let mut expected = HashMap::new();
    expected.insert(0, set(vec![Connection::Component(1, 0)]));
    assert_eq!(edges(&data), expected);

    assert!(data.remove_subnet(0));

    assert_eq!(edges(&data), HashMap::new());

    assert!(data.remove_subnet(1));

    assert_eq!(edges(&data), HashMap::new());

    assert!(!data.remove_subnet(0));
    assert!(!data.remove_subnet(3));
}

fn map(entries: Vec<(usize, Vec<Connection>)>) -> HashMap<usize, HashSet<Connection>> {
    entries.into_iter().map(|(key, connections)| (key, set(connections))).collect()
}

/// Whether any node key or connection of the adjacency structure names the
/// node `node`.
fn mentions(data: &Netlist, node: usize) -> bool {
    data.edges().into_iter().any(|(key, connections)| {
        key == node
            || connections.into_iter().any(|connection| match connection {
                Connection::Subnet(to) => to == node,
                Connection::Component(to, _) => to == node,
            })
    })
}

#[test]
fn new_graph_is_empty() {
    let data: Netlist = Data::new();
    assert_eq!(data.edges(), vec![]);
    assert!(data.component(0).is_none());
    assert!(data.subnet(0).is_none());
}

#[test]
fn identifiers_are_handed_out_in_order() {
    let mut data: Netlist = Data::new();
    for expected in 0..5 {
        assert_eq!(data.add_component(Box::new(Constant::new()), vec![], vec![None]), Ok(expected));
    }
    for id in 0..5 {
        assert!(data.component(id).is_some());
    }
    assert!(data.component(5).is_none());
}

#[test]
fn freed_identifiers_are_reused_smallest_first() {
    let mut data: Netlist = Data::new();
    for expected in 0..3 {
        assert_eq!(data.add_component(Box::new(Output {}), vec![None], vec![]), Ok(expected));
    }
    assert!(data.remove_component(0));
    assert!(data.remove_component(2));
    assert!(data.component(0).is_none());
    assert!(data.component(1).is_some());
    assert!(data.component(2).is_none());

    assert_eq!(data.add_component(Box::new(Output {}), vec![None], vec![]), Ok(0));
    assert_eq!(data.add_component(Box::new(Output {}), vec![None], vec![]), Ok(2));
    assert_eq!(data.add_component(Box::new(Output {}), vec![None], vec![]), Ok(3));
}

#[test]
fn freed_identifiers_are_reused_whatever_the_order_of_removal() {
    let mut data: Netlist = Data::new();
    for _ in 0..6 {
        assert!(data.add_component(Box::new(Output {}), vec![None], vec![]).is_ok());
    }
    for id in [4, 1, 5, 3] {
        assert!(data.remove_component(id));
    }
    for expected in [1, 3, 4, 5, 6, 7] {
        assert_eq!(data.add_component(Box::new(Output {}), vec![None], vec![]), Ok(expected));
    }
}

#[test]
fn arity_mismatch_is_rejected_without_a_change() {
    let mut data: Netlist = Data::new();
    data.add_subnet(0);
    data.add_subnet(1);
    assert_eq!(data.add_component(Box::new(Output {}), vec![Some(0)], vec![]), Ok(0));
    let before = edges(&data);

    assert_eq!(data.add_component(Box::new(AND {}), vec![], vec![Some(1)]), Err(()));
    assert_eq!(data.add_component(Box::new(AND {}), vec![Some(0), Some(1)], vec![]), Err(()));
    assert_eq!(data.add_component(Box::new(AND {}), vec![Some(0)], vec![Some(1)]), Err(()));
    assert_eq!(
        data.add_component(Box::new(AND {}), vec![Some(0), Some(1), None], vec![Some(1)]),
        Err(())
    );
    assert_eq!(
        data.add_component(Box::new(AND {}), vec![Some(0), Some(1)], vec![Some(1), None]),
        Err(())
    );
    assert_eq!(data.add_component(Box::new(Output {}), vec![], vec![]), Err(()));
    assert_eq!(
        data.add_component(Box::new(DFlipFlop::new()), vec![None, None], vec![None, None]),
        Err(())
    );

    assert_eq!(edges(&data), before);
    assert!(data.component(1).is_none());
    // no identifier was used up
    assert_eq!(data.add_component(Box::new(AND {}), vec![None, None], vec![None]), Ok(1));
}

#[test]
fn empty_slots_wire_nothing() {
    let mut data: Netlist = Data::new();
    assert_eq!(data.add_component(Box::new(Output {}), vec![None], vec![]), Ok(0));
    assert_eq!(edges(&data), HashMap::new());
    // a component with output slots gets an edge set, even an empty one
    assert_eq!(data.add_component(Box::new(AND {}), vec![None, None], vec![None]), Ok(1));
    assert_eq!(edges(&data), map(vec![(3, vec![])]));
}

#[test]
fn flip_flop_is_wired_by_its_slots() {
    let mut data: Netlist = Data::new();
    for id in [2, 3, 4, 7] {
        assert!(data.add_subnet(id));
    }
    assert_eq!(
        data.add_component(
            Box::new(JKFlipFlop::new()),
            vec![Some(2), Some(3), Some(2), None],
            vec![Some(7), Some(4)],
        ),
        Ok(0)
    );
    assert_eq!(
        edges(&data),
        map(vec![
            (4, vec![Connection::Component(1, 0), Connection::Component(1, 2)]),
            (6, vec![Connection::Component(1, 1)]),
            (1, vec![Connection::Subnet(14), Connection::Subnet(8)]),
        ])
    );
}

#[test]
fn feedback_wiring_is_allowed() {
    let mut data: Netlist = Data::new();
    assert!(data.add_subnet(0));
    // Q inverse drives the subnet that feeds D
    assert_eq!(
        data.add_component(
            Box::new(DFlipFlop::new()),
            vec![Some(0), None, None],
            vec![None, Some(0)],
        ),
        Ok(0)
    );
    assert_eq!(
        edges(&data),
        map(vec![(0, vec![Connection::Component(1, 0)]), (1, vec![Connection::Subnet(0)])])
    );
}

#[test]
fn link_records_one_direction() {
    let mut data: Netlist = Data::new();
    assert!(data.link(3, 1, 4, true));
    assert_eq!(edges(&data), map(vec![(7, vec![Connection::Subnet(8)])]));
    assert!(data.link(3, 1, 4, false));
    assert_eq!(
        edges(&data),
        map(vec![(7, vec![Connection::Subnet(8)]), (8, vec![Connection::Component(7, 1)])])
    );
    assert!(data.link(3, 0, 4, false));
    assert_eq!(
        edges(&data),
        map(vec![
            (7, vec![Connection::Subnet(8)]),
            (8, vec![Connection::Component(7, 1), Connection::Component(7, 0)]),
        ])
    );
}

#[test]
fn link_says_whether_the_edge_is_new() {
    let mut data: Netlist = Data::new();
    assert!(data.link(0, 0, 0, true));
    assert!(!data.link(0, 0, 0, true));
    // the port does not matter for an edge from the component to the subnet
    assert!(!data.link(0, 5, 0, true));
    assert!(data.link(0, 0, 0, false));
    assert!(!data.link(0, 0, 0, false));
    assert!(data.link(0, 1, 0, false));
    assert_eq!(
        edges(&data),
        map(vec![
            (1, vec![Connection::Subnet(0)]),
            (0, vec![Connection::Component(1, 0), Connection::Component(1, 1)]),
        ])
    );
}

#[test]
fn unlink_removes_both_directions() {
    let mut data: Netlist = Data::new();
    assert!(data.link(3, 1, 4, true));
    assert!(data.link(3, 1, 4, false));
    assert!(data.unlink(3, 1, 4));
    // the edge sets stay, empty
    assert_eq!(edges(&data), map(vec![(7, vec![]), (8, vec![])]));
    assert!(!data.unlink(3, 1, 4));
}

#[test]
fn unlink_says_whether_an_edge_was_there() {
    let mut data: Netlist = Data::new();
    assert!(!data.unlink(0, 0, 0));
    assert_eq!(edges(&data), HashMap::new());

    assert!(data.link(3, 1, 4, true));
    assert!(data.unlink(3, 1, 4));
    assert!(!data.unlink(3, 1, 4));

    assert!(data.link(3, 1, 4, false));
    // another port of the same component is another edge
    assert!(!data.unlink(3, 2, 4));
    assert!(data.unlink(3, 1, 4));
    assert!(!data.unlink(3, 1, 4));

    // other pairs are not touched
    assert!(data.link(1, 0, 2, true));
    assert!(data.link(1, 0, 2, false));
    assert!(!data.unlink(1, 0, 3));
    assert!(!data.unlink(2, 0, 2));
    assert_eq!(
        edges(&data),
        map(vec![
            (7, vec![]),
            (8, vec![]),
            (3, vec![Connection::Subnet(4)]),
            (4, vec![Connection::Component(3, 0)]),
        ])
    );
}

#[test]
fn add_subnet_refuses_an_occupied_identifier() {
    let mut data: Netlist = Data::new();
    assert!(data.add_subnet(7));
    assert_eq!(data.subnet(7).map(|subnet| subnet.val()), Some(SubnetState::Floating));
    assert!(data.subnet_mut(7).unwrap().update(SubnetState::On));
    assert!(!data.add_subnet(7));
    // the subnet that was there is still there
    assert_eq!(data.subnet(7).map(|subnet| subnet.val()), Some(SubnetState::On));
    assert!(data.subnet(6).is_none());
    assert!(data.subnet_mut(6).is_none());
}

#[test]
fn removed_subnet_can_be_added_again() {
    let mut data: Netlist = Data::new();
    assert!(data.add_subnet(2));
    data.subnet_mut(2).unwrap().update(SubnetState::Off);
    assert!(data.remove_subnet(2));
    assert!(data.subnet(2).is_none());
    assert!(!data.remove_subnet(2));
    assert!(data.add_subnet(2));
    assert_eq!(data.subnet(2).map(|subnet| subnet.val()), Some(SubnetState::Floating));
}

#[test]
fn remove_component_says_whether_it_was_there() {
    let mut data: Netlist = Data::new();
    assert!(!data.remove_component(0));
    assert_eq!(data.add_component(Box::new(Button::new()), vec![], vec![None]), Ok(0));
    assert!(!data.remove_component(1));
    assert!(data.remove_component(0));
    assert!(!data.remove_component(0));
    assert!(data.component(0).is_none());
    assert!(data.component_mut(0).is_none());
}

#[test]
fn removing_a_component_leaves_no_reference_to_it() {
    let mut data: Netlist = Data::new();
    for id in 0..4 {
        assert!(data.add_subnet(id));
    }
    assert_eq!(
        data.add_component(Box::new(AND {}), vec![Some(0), Some(1)], vec![Some(2)]),
        Ok(0)
    );
    assert_eq!(
        data.add_component(
            Box::new(JKFlipFlop::new()),
            vec![Some(2), Some(2), Some(3), Some(0)],
            vec![Some(1), None],
        ),
        Ok(1)
    );
    assert!(mentions(&data, 3));

    assert!(data.remove_component(1));
    assert!(!mentions(&data, 3));
    assert_eq!(
        edges(&data),
        map(vec![
            (0, vec![Connection::Component(1, 0)]),
            (2, vec![Connection::Component(1, 1)]),
            (4, vec![]),
            (6, vec![]),
            (1, vec![Connection::Subnet(4)]),
        ])
    );

    assert!(data.remove_component(0));
    assert!(!mentions(&data, 1));
    assert_eq!(edges(&data), map(vec![(0, vec![]), (2, vec![]), (4, vec![]), (6, vec![])]));
}

#[test]
fn removing_a_subnet_leaves_no_reference_to_it() {
    let mut data: Netlist = Data::new();
    for id in 0..3 {
        assert!(data.add_subnet(id));
    }
    assert_eq!(
        data.add_component(Box::new(AND {}), vec![Some(0), Some(1)], vec![Some(2)]),
        Ok(0)
    );
    assert_eq!(
        data.add_component(Box::new(AND {}), vec![Some(2), Some(0)], vec![Some(2)]),
        Ok(1)
    );
    assert_eq!(data.add_component(Box::new(Output {}), vec![Some(2)], vec![]), Ok(2));
    assert!(mentions(&data, 4));

    assert!(data.remove_subnet(2));
    assert!(!mentions(&data, 4));
    assert_eq!(
        edges(&data),
        map(vec![
            (0, vec![Connection::Component(1, 0), Connection::Component(3, 1)]),
            (2, vec![Connection::Component(1, 1)]),
            (1, vec![]),
            (3, vec![]),
        ])
    );
}

#[test]
fn removing_a_subnet_reaches_components_with_large_identifiers() {
    let mut data: Netlist = Data::new();
    assert!(data.add_subnet(0));
    for expected in 0..3 {
        assert_eq!(
            data.add_component(Box::new(Constant::new()), vec![], vec![Some(0)]),
            Ok(expected)
        );
    }
    assert!(data.remove_component(0));
    assert!(data.remove_component(1));
    // one live component, with an identifier beyond the number of live components
    assert_eq!(edges(&data), map(vec![(5, vec![Connection::Subnet(0)])]));
    assert!(data.remove_subnet(0));
    assert_eq!(edges(&data), map(vec![(5, vec![])]));
}

#[test]
fn cascade_reaches_live_nodes_only() {
    let mut data: Netlist = Data::new();
    assert!(data.add_subnet(3));
    // component 7 does not exist, so the removal of subnet 3 does not look at its node
    assert!(data.link(7, 0, 3, true));
    assert!(data.remove_subnet(3));
    assert_eq!(edges(&data), map(vec![(15, vec![Connection::Subnet(6)])]));

    let mut data: Netlist = Data::new();
    assert_eq!(data.add_component(Box::new(Output {}), vec![None], vec![]), Ok(0));
    assert!(data.add_subnet(1));
    // subnet 2 does not exist, and port 4 is no input port of the component
    assert!(data.link(0, 0, 2, false));
    assert!(data.link(0, 4, 1, false));
    assert!(data.link(0, 0, 1, false));
    assert!(data.remove_component(0));
    assert_eq!(
        edges(&data),
        map(vec![(4, vec![Connection::Component(1, 0)]), (2, vec![Connection::Component(1, 4)])])
    );
}

#[test]
fn stored_components_are_evaluated_in_place() {
    let mut data: Netlist = Data::new();
    assert_eq!(data.add_component(Box::new(Clock::new()), vec![], vec![None]), Ok(0));
    assert_eq!(data.add_component(Box::new(DFlipFlop::new()), vec![None; 3], vec![None; 2]), Ok(1));

    let clock = data.component_mut(0).unwrap();
    assert_eq!(clock.evaluate(HashMap::new())[&0], SubnetState::Off);
    let clock = data.component_mut(0).unwrap();
    assert_eq!(clock.evaluate(HashMap::new())[&0], SubnetState::On);

    let mut rising = HashMap::new();
    rising.insert(0, StateChange::new(SubnetState::Off, SubnetState::On));
    rising.insert(1, StateChange::new(SubnetState::Off, SubnetState::On));
    let flop = data.component_mut(1).unwrap();
    assert_eq!(flop.evaluate(rising)[&3], SubnetState::On);
    let flop = data.component_mut(1).unwrap();
    assert_eq!(flop.evaluate(HashMap::new())[&3], SubnetState::On);

    assert_eq!(data.component(0).unwrap().ports(), 1);
    assert_eq!(data.component(1).unwrap().ports(), 5);
}

#[test]
fn interactive_components_are_found_through_the_graph() {
    let mut data: Netlist = Data::new();
    assert_eq!(data.add_component(Box::new(Constant::new()), vec![], vec![None]), Ok(0));
    assert_eq!(data.add_component(Box::new(Button::new()), vec![], vec![None]), Ok(1));
    assert_eq!(data.add_component(Box::new(Output {}), vec![None], vec![]), Ok(2));

    let interactive: Vec<usize> =
        (0..3).filter(|id| data.component(*id).unwrap().pokeable_areas() > 0).collect();
    assert_eq!(interactive, vec![1]);

    let button = data.component_mut(1).unwrap();
    button.poke_start(0);
    assert_eq!(button.evaluate(HashMap::new())[&0], SubnetState::On);
    let button = data.component_mut(1).unwrap();
    button.poke_end(0);
    assert_eq!(button.evaluate(HashMap::new())[&0], SubnetState::Off);
}

#[test]
fn graph_of_one_component_type() {
    let mut data: Data<DFlipFlop> = Data::new();
    assert!(data.add_subnet(0));
    assert_eq!(
        data.add_component(DFlipFlop::new(), vec![Some(0), None, None], vec![None, None]),
        Ok(0)
    );
    assert_eq!(data.add_component(DFlipFlop::new(), vec![], vec![]), Err(()));
    assert_eq!(data.edges().len(), 2);
    assert!(data.remove_component(0));
    assert!(data.component(0).is_none());
}
