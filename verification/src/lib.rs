//! The control logic of a video-feedback instrument played from a MIDI
//! control surface: the surface's wire protocol and its lights, the rig's
//! vocabulary of nodes and knobs and its routing levers, what each control
//! does, the controls overlay's picture of the surface, and the arithmetic
//! the display, the tempo and the capture path rest on.

pub mod params;
pub mod wire;
pub mod lamps;
pub mod panel;
pub mod text;
pub mod capture;
pub mod readback;
pub mod command;
pub mod rig;
pub mod midi;
pub mod cards;
pub mod tempo;
pub mod feedback;
pub mod input;
pub mod present;
pub mod cli;
pub mod config;
pub mod desk;
pub mod canvas;
pub mod overlay;
