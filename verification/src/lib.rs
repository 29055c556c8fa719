//! Simulation core of a digital-logic circuit simulator: the netlist graph
//! and the stateful components that live in it.

pub mod data;
