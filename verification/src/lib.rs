//! A local telemetry agent's verified core: the reconciliation engine that
//! keeps an externally visible live table in step with the entities observed
//! on a host, together with the pure display formatting for each table cell
//! and the scheduler's lifecycle state machine.
//!
//! Enumerating entities (processes, containers) and delivering row mutations
//! to the visualization sink are I/O and live outside this library; the
//! library turns a snapshot of plain values into the exact sequence of row
//! operations the sink must receive.

pub mod container;
pub mod entity;
pub mod laws;
pub mod lifecycle;
pub mod process;
pub mod reconcile;
pub mod rowop;
pub mod text;
