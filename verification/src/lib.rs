//! Lookup tables, settings layout and GPU plans for a colour-grading and
//! dithering pipeline.
//!
//! A user places the control points of a tone curve and the stops of a colour
//! gradient, and moves the sliders of a settings record. From these the
//! library makes what the fragment stage reads: two 256-entry lookup tables
//! and the 80 bytes of the settings. It also plans, as plain values, what is
//! to be created on the GPU, copied to it and drawn; whoever holds the device
//! carries the plans out.
//!
//! Every coordinate that a user places is held as a 16-bit normalised
//! number: 0 stands for 0.0 and 65535 for 1.0. The 256 input levels of a
//! lookup table then sit exactly on the multiples of 257, and every table
//! entry is the floor of an exact rational value. The settings are single
//! precision numbers, held as the bits of their encoding and never computed
//! with.
//!
//! The evaluators: [`spline`] and [`gradient`], over [`order`] and [`arith`].
//! What is proved of them: [`monotone`] and [`interpolation`], over [`cubic`]
//! and [`tame`]. The collections under editing: [`curve_editor`],
//! [`gradient_editor`] and [`session`]. The GPU side: [`pipeline`],
//! [`image_io`], [`dither`] and [`export`].

pub mod arith;
pub mod cubic;
pub mod curve_editor;
pub mod dither;
pub mod export;
pub mod gradient;
pub mod gradient_editor;
pub mod image_io;
pub mod interpolation;
pub mod monotone;
pub mod order;
pub mod pipeline;
pub mod session;
pub mod spline;
pub mod tame;
