//! Snapshots of the live entities the agent watches. An entity is a bundle of
//! plain attribute values observed at sample time; the enumeration itself
//! (walking the OS process table, querying the container daemon) happens
//! outside the library and hands these values in.

use vstd::prelude::*;

verus! {

/// One operating-system process at sample time.
///
/// CPU utilization is carried in ten-thousandths of a percent so that the
/// fixed four-digit fraction of the display cell is exact integer arithmetic.
pub struct ProcessEntity {
    /// Process id: the stable identity of the process while it lives.
    pub pid: u64,
    /// Display name; an empty name marks the entity as not visible.
    pub name: String,
    /// Run status, already rendered as text by the enumerator.
    pub status: String,
    /// CPU utilization in units of 1/10000 percent.
    pub cpu_e4: u64,
    /// Resident memory in kilobytes.
    pub memory_kb: u64,
    /// Cumulative bytes read from disk.
    pub disk_read_bytes: u64,
    /// Cumulative bytes written to disk.
    pub disk_written_bytes: u64,
}

/// One exposed-port binding of a container.
pub struct PortBinding {
    /// Host IP the port is bound to; a binding without one is not displayed.
    pub ip: Option<String>,
    /// Port inside the container.
    pub private_port: u64,
    /// Published host port, if any.
    pub public_port: Option<u64>,
}

/// One container at sample time.
pub struct ContainerEntity {
    /// Opaque identity string assigned by the container runtime.
    pub id: String,
    /// Creation time as non-leap seconds since the Unix epoch.
    pub created_secs: i64,
    /// Command line the container runs.
    pub command: String,
    /// Image reference.
    pub image: String,
    /// Label mapping, handed in as key/value pairs in the enumerator's
    /// iteration order (no order is promised across snapshots).
    pub labels: Vec<(String, String)>,
    /// Names the runtime knows the container by.
    pub names: Vec<String>,
    /// Exposed-port bindings.
    pub ports: Vec<PortBinding>,
    /// Lifecycle state word.
    pub state: String,
    /// Human-readable status line.
    pub status: String,
    /// Writable-layer size in bytes; absent is displayed as 0.
    pub size_rw: Option<u64>,
}

} // verus!
