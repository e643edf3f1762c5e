//! Core of a multiplayer "find the note on the fretboard" quiz.
//!
//! A host creates a game, other players join, and for a fixed number of
//! rounds each player tries to click the fretboard coordinate matching a
//! randomly chosen target note. This crate holds the verified core: the
//! theory engine and guess validator, the per-game session state machine,
//! the room registry, the connection fan-out, and the pure halves of the
//! persistence boundary. HTTP routing, identity and the actual database
//! driver live outside, around this library.

pub mod theory;

pub mod game;

pub mod registry;

pub mod fanout;

pub mod persist;
