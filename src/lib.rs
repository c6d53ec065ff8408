//! A tick-scheduled, four-channel sound synthesizer core, with the integer
//! model of the game that drives it.
//!
//! The synthesizer side holds the tick scheduler, the effect slots of every
//! layer and how their outputs are resolved onto the channels, the progress of
//! interpolated sweeps, and the repeating table cursor of the noise channel.
//! Sample arithmetic is done by the caller, through the `Mixer` and
//! `EffectSequence` traits.

pub mod collision;
pub mod controller;
pub mod effect;
pub mod items;
pub mod level;
pub mod platform;
pub mod player;
pub mod repeating;
