//! daylight: a terminal day/night world clock.
//!
//! The verified core of the clock: the braille dot canvas, the embedded
//! coastline wire format, frame composition and the ANSI/plain writers with a
//! model of the terminal they drive, the clock line's date and zone, the CLI
//! value checks, terminal ownership, and the interactive key/redraw decisions.
pub mod cli;
pub mod clock;
pub mod coast;
pub mod coast_laws;
pub mod compose_laws;
pub mod control;
pub mod frame;
pub mod raster;
pub mod screen;
pub mod solar;
pub mod term;
pub mod writer_laws;
