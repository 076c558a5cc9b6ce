//! A model of a dual-stack "fastest address wins" connection strategy:
//! per-host address lists gathered by DNS resolution, per-family connect
//! latency averages, and a connection race that keeps exactly one winner.
//!
//! The library holds the per-host state and the rules of the three phases
//! (resolve, time, race); the surrounding program performs the lookups and
//! TCP connects and hands their outcomes in as plain values.

pub mod addr;
pub mod batch;
pub mod host;
pub mod timing;
