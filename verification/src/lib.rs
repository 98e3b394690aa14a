//! Deny access to a configured set of distracting hosts until a daily
//! contribution goal is met.
//!
//! A delimited region of the system hosts file — the managed block — holds
//! one loopback-redirect line per address family for every blocked host.
//! [`hosts`] locates, rewrites and toggles that block without touching the
//! rest of the file; [`hosts_laws`] proves the block operations' laws.
//! [`engine`] decides once per polling cycle, from the persisted threshold
//! status and today's date, whether to block the hosts and query the
//! external contribution count.  [`app`] holds the interactive state and
//! its keyboard transitions.  All file, network and terminal work stays
//! with the caller, which feeds plain values in and carries the decisions
//! out.
use vstd::prelude::*;

pub mod app;
pub mod engine;
pub mod hosts;
pub mod hosts_laws;
pub mod text;

verus! {

} // verus!
