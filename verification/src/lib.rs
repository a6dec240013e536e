//! Authoritative room state and session hub of a cue-and-guess party game.
//!
//! A room holds players, a rotating cue-giver, two cues, a hidden target cell
//! on a grid and two rounds of guesses; points go by the distance of a guess
//! from the target. The hub holds every room and every connection, applies
//! each command to the room of the connection that sent it, and answers with
//! the messages to send. It performs no I/O: the program around it locks the
//! hub, reads commands from the sockets and writes the answers to them.
//!
//! - `model` and `hub_model`: the state of a room and of the hub as plain
//!   mathematical values, each command as a function on them, and the laws
//!   that these functions obey.
//! - `room` and `hub`: the executable room and hub, held to the models.
//! - `protocol`: commands, messages and the snapshot of a room.
//! - `scoring`: grid distance and points.
//! - `draw`: random cells.
//! - `auth`: the plain values of the login exchange.

pub mod auth;
pub mod draw;
pub mod hub;
pub mod hub_model;
pub mod model;
pub mod protocol;
pub mod room;
pub mod scoring;
