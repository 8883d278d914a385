//! Reading a falling-block game off the screen and proposing placements.
pub mod single;
pub mod color;
pub mod component;
pub mod field;
pub mod config;
pub mod capture;
pub mod vision;
pub mod ai;
pub mod worker;
pub mod bot;
pub mod overlay;
pub mod panel;
pub mod input;
pub mod screenshot;
pub mod inspect;
pub mod analyze;
pub mod calibrate;
