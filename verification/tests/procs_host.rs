use host_telemetry::host::{compose_system_info, memory_type_from_inventory};
use host_telemetry::models::ProcessInfo;
use host_telemetry::procs::{sort_processes, stats_summary};

fn proc(pid: u32, name: &str, cpu_usage: u32, memory: u64) -> ProcessInfo {
    ProcessInfo {
        pid,
        name: name.to_string(),
        cpu_usage,
        memory,
        status: "Running".to_string(),
    }
}

#[test]
fn processes_sorted_descending_by_cpu() {
    let v = vec![
        proc(10, "idle", 0, 100),
        proc(11, "busy", 12_550, 200),
        proc(12, "mid", 430, 300),
    ];
    let r = sort_processes(v);
    let cpus: Vec<u32> = r.iter().map(|p| p.cpu_usage).collect();
    assert_eq!(cpus, vec![12_550, 430, 0]);
    let pids: Vec<u32> = r.iter().map(|p| p.pid).collect();
    assert_eq!(pids, vec![11, 12, 10]);
}

#[test]
fn sorting_keeps_every_pid_once() {
    let v = vec![
        proc(1, "a", 5, 1),
        proc(2, "b", 5, 1),
        proc(3, "c", 7, 1),
        proc(4, "d", 5, 1),
    ];
    let r = sort_processes(v);
    let mut pids: Vec<u32> = r.iter().map(|p| p.pid).collect();
    pids.sort();
    assert_eq!(pids, vec![1, 2, 3, 4]);
}

#[test]
fn cpu_ties_keep_enumeration_order() {
    let v = vec![
        proc(1, "a", 5, 1),
        proc(2, "b", 5, 1),
        proc(3, "c", 7, 1),
        proc(4, "d", 5, 1),
    ];
    let r = sort_processes(v);
    let pids: Vec<u32> = r.iter().map(|p| p.pid).collect();
    assert_eq!(pids, vec![3, 1, 2, 4]);
}

#[test]
fn stats_count_and_sum_match_the_enumeration() {
    let v = vec![proc(1, "a", 150, 10), proc(2, "b", 250, 20), proc(3, "c", 0, 30)];
    let s = stats_summary(&v, 16_000, 8_000);
    assert_eq!(s.total_processes, v.len());
    assert_eq!(s.total_cpu_usage, 400);
    assert_eq!(s.total_memory, 16_000);
    assert_eq!(s.used_memory, 8_000);
}

#[test]
fn stats_of_empty_enumeration() {
    let v: Vec<ProcessInfo> = Vec::new();
    let s = stats_summary(&v, 1, 0);
    assert_eq!(s.total_processes, 0);
    assert_eq!(s.total_cpu_usage, 0);
}

#[test]
fn unreachable_external_ip_degrades_only_that_field() {
    let r = compose_system_info(
        Some("Linux".to_string()),
        Some("6.1".to_string()),
        Some("devbox".to_string()),
        Some("192.168.0.7".to_string()),
        None,
        16_000,
        8_000,
        Some("DDR4".to_string()),
    );
    assert_eq!(r.external_ip, "Unknown");
    assert_eq!(r.os, "Linux");
    assert_eq!(r.version, "6.1");
    assert_eq!(r.hostname, "devbox");
    assert_eq!(r.internal_ip, "192.168.0.7");
    assert_eq!(r.total_memory, 16_000);
    assert_eq!(r.used_memory, 8_000);
    assert_eq!(r.memory_type, "DDR4");
}

#[test]
fn every_source_failing_still_yields_a_snapshot() {
    let r = compose_system_info(None, None, None, None, None, 0, 0, None);
    assert_eq!(r.os, "Unknown");
    assert_eq!(r.version, "Unknown");
    assert_eq!(r.hostname, "Unknown");
    assert_eq!(r.internal_ip, "Unknown");
    assert_eq!(r.external_ip, "Unknown");
    assert_eq!(r.memory_type, "Unknown");
}

#[test]
fn memory_type_read_from_inventory_output() {
    let out = "Memory Device\n\tSize: 8 GB\n\tType: DDR4\n\tType Detail: Synchronous\n";
    assert_eq!(memory_type_from_inventory(out), "DDR4");
}

#[test]
fn inventory_without_type_line_is_unknown() {
    let out = "Memory Device\n\tSize: 8 GB\n";
    assert_eq!(memory_type_from_inventory(out), "Unknown");
    assert_eq!(memory_type_from_inventory(""), "Unknown");
}

#[test]
fn detail_variant_of_type_field_is_not_the_type() {
    // a line mentioning the detail field never supplies the type, even if it
    // starts with the plain label
    let out = "\tType: DDR4 Detail\n\tType: DDR5\n";
    assert_eq!(memory_type_from_inventory(out), "DDR5");
}
