//! The adapter host: time, paging, the observation fold, request multiplexing
//! and the checks on what an adapter replies.

pub mod calendar;
pub mod chain_laws;
pub mod connection_laws;
pub mod date_laws;
pub mod failure;
pub mod fold;
pub mod mux;
pub mod mux_laws;
pub mod paging;
pub mod read_laws;
pub mod reads;
pub mod supervise;
pub mod time;
