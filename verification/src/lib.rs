//! The verified core of a multi-client text broadcast server: the session
//! registry with its name-uniqueness protocol, the command dispatcher and
//! routing decisions, and the hangman mini-game state machine. The
//! transport around it (sockets, threads, frame padding) hands each
//! decoded message in and writes the returned frames out; every decision
//! in between is made here, under contract.

pub mod commands;
pub mod dispatcher;
pub mod hangman;
pub mod laws;
pub mod letters;
pub mod registry;
pub mod router;
pub mod text;
