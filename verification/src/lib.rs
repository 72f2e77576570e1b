//! The logic of a small two-wheeled bot and its firmwares.
//!
//! The library decides; it touches no hardware. What a board is to do comes out of it as a list of
//! single steps ([`board::Op`]), in the order in which they are to be carried out.
pub mod board;
pub mod clap;
pub mod client;
pub mod command;
pub mod drive_test;
pub mod listener;
pub mod motion;
pub mod rig;
pub mod station;
pub mod text;
pub mod tunables;
