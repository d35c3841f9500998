//! The value objects every operation returns. Each is a disposable,
//! self-contained result with no cross-call identity. Types whose collections
//! carry contracts (process and port tables) get a spec-level record with
//! sequence views of their strings, so that contracts can speak of them
//! mathematically.
use vstd::prelude::*;

verus! {

/// Best-effort host facts. Any field whose source was unavailable carries
/// the sentinel text `Unknown` instead of failing the whole snapshot.
pub struct SystemInfo {
    pub os: String,
    pub version: String,
    pub hostname: String,
    pub internal_ip: String,
    pub external_ip: String,
    pub total_memory: u64,
    pub used_memory: u64,
    pub memory_type: String,
}

/// One running process. `cpu_usage` is in hundredths of a percent and may
/// exceed 10000 on multi-core hosts; `memory` is resident bytes.
pub struct ProcessInfo {
    pub pid: u32,
    pub name: String,
    pub cpu_usage: u32,
    pub memory: u64,
    pub status: String,
}

/// Spec-level record of a `ProcessInfo`.
pub struct ProcessRec {
    pub pid: u32,
    pub name: Seq<char>,
    pub cpu_usage: u32,
    pub memory: u64,
    pub status: Seq<char>,
}

impl View for ProcessInfo {
    type V = ProcessRec;

    open spec fn view(&self) -> ProcessRec {
        ProcessRec {
            pid: self.pid,
            name: self.name@,
            cpu_usage: self.cpu_usage,
            memory: self.memory,
            status: self.status@,
        }
    }
}

/// Aggregate statistics over one process enumeration. `total_cpu_usage` is
/// the plain sum of the records' `cpu_usage` fields.
pub struct SystemStats {
    pub total_processes: usize,
    pub total_cpu_usage: u64,
    pub total_memory: u64,
    pub used_memory: u64,
}

/// One listening TCP socket owned by a process, restricted by policy to the
/// development port range.
pub struct PortInfo {
    pub port: u16,
    pub pid: u32,
    pub process_name: String,
    pub protocol: String,
}

/// Spec-level record of a `PortInfo`.
pub struct PortRec {
    pub port: u16,
    pub pid: u32,
    pub process_name: Seq<char>,
    pub protocol: Seq<char>,
}

impl View for PortInfo {
    type V = PortRec;

    open spec fn view(&self) -> PortRec {
        PortRec {
            port: self.port,
            pid: self.pid,
            process_name: self.process_name@,
            protocol: self.protocol@,
        }
    }
}

/// One aggregated feed entry, with best-effort translations.
pub struct NewsItem {
    pub title: String,
    pub title_pt: String,
    pub link: String,
    pub description: String,
    pub description_pt: String,
    pub pub_date: String,
    pub source: String,
    pub category: String,
}

/// The views of a sequence of process records.
pub open spec fn process_views(s: Seq<ProcessInfo>) -> Seq<ProcessRec> {
    s.map_values(|p: ProcessInfo| p@)
}

/// The views of a sequence of port records.
pub open spec fn port_views(s: Seq<PortInfo>) -> Seq<PortRec> {
    s.map_values(|p: PortInfo| p@)
}

} // verus!
