//! Pins-canvas model of a microcontroller: peripheral pin functions, virtual
//! modules, device groups and the text the panel derives from them.

pub mod assign;
pub mod canvas;
pub mod custom;
pub mod groups;
pub mod logic;
pub mod model;
pub mod moves;
pub mod naming;
pub mod offer;
pub mod panel;
pub mod persist;
pub mod modules;
pub mod pins;
pub mod pwm;
pub mod reconcile;
pub mod rp;
pub mod rotate;
pub mod search;
pub mod style;
pub mod text;
pub mod undo;
