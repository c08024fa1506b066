//! Verified core of the Hackerland desktop's wallpaper renderer and status bar.
//!
//! The renderer shows a gradient behind all windows on every output of a layer-shell
//! compositor. This crate holds what it decides and computes, proved against contracts:
//!
//! - [`pattern`]: the gradient, and painting it into a canvas;
//! - [`shm`]: the books of shared-memory pools and the pixel buffers carved from them;
//! - [`registry`]: the compositor's globals and outputs as they are announced and withdrawn;
//! - [`surface`]: the life of one output's layer surface, from creation to teardown;
//! - [`driver`]: the renderer as a whole, as a function from events to actions;
//! - [`protocol`]: the events and actions themselves;
//! - [`error`]: what can fail and what each failure costs;
//! - [`keyed`]: lists searched by a numeric key, which globals and surfaces both are;
//! - [`feed`]: the status bar's text feed and its place on the screen.
//!
//! Nothing here talks to a compositor. The program around the crate runs the session, tells
//! the [`driver::Driver`] what happened and carries out what it answers.

pub mod driver;
pub mod error;
pub mod feed;
pub mod keyed;
pub mod pattern;
pub mod protocol;
pub mod registry;
pub mod shm;
pub mod surface;
