//! Core of an air-traffic coordinator: the binary frame codec, the store of
//! aircraft trajectories, the per-connection session state machine, the
//! collision-alert policy and the coordinator's operational flag.
//!
//! Everything here is plain computation on values; sockets, timers, channels
//! and floating-point geometry live with the program that drives it.
pub mod vector;
pub mod packet;
pub mod predictor;
pub mod session;
pub mod state_machine;
pub mod trajectory;
