use host_telemetry::models::PortInfo;
use host_telemetry::ports::{
    parse_line, parse_port_listing, port_text, scan_from_outcome, sort_ports, ListingOutcome,
};

#[test]
fn well_formed_line_yields_record() {
    let line = "node      1234 dev   23u  IPv4 123456      0t0  TCP *:8081 (LISTEN)";
    let r = parse_line(line).expect("line should parse");
    assert_eq!(r.port, 8081);
    assert_eq!(r.pid, 1234);
    assert_eq!(r.process_name, "node");
    assert_eq!(r.protocol, "TCP");
}

#[test]
fn wildcard_address_yields_port() {
    assert_eq!(port_text("*:8080"), "8080");
    let line = "serve 77 dev 5u IPv4 1 0t0 TCP *:8080";
    let r = parse_line(line).expect("line should parse");
    assert_eq!(r.port, 8080);
}

#[test]
fn out_of_sixteen_bit_range_port_yields_no_record() {
    let line = "serve 77 dev 5u IPv4 1 0t0 TCP 127.0.0.1:70000";
    assert!(parse_line(line).is_none());
}

#[test]
fn port_outside_dev_range_yields_no_record() {
    let low = "a 1 u 4u IPv4 1 0t0 TCP 127.0.0.1:80";
    let high = "b 2 u 4u IPv4 1 0t0 TCP 127.0.0.1:10000";
    assert!(parse_line(low).is_none());
    assert!(parse_line(high).is_none());
}

#[test]
fn short_line_yields_no_record() {
    assert!(parse_line("only four columns here").is_none());
    assert!(parse_line("").is_none());
}

#[test]
fn unparseable_pid_drops_the_line() {
    let line = "ghost abc dev 5u IPv4 1 0t0 TCP *:4000";
    assert!(parse_line(line).is_none());
    // and only that line: the well-formed neighbour still contributes
    let out = "HEADER\nghost abc dev 5u IPv4 1 0t0 TCP *:4000\n\
               node 42 dev 5u IPv4 1 0t0 TCP *:4001\n";
    let r = parse_port_listing(out);
    assert_eq!(r.len(), 1);
    assert_eq!(r[0].port, 4001);
    assert_eq!(r[0].pid, 42);
}

#[test]
fn synthetic_listing_yields_exactly_one_binding() {
    let out = "COMMAND PID USER FD TYPE DEVICE SIZE/OFF NODE NAME\n\
               node      1234 dev   23u  IPv4 123456      0t0  TCP *:8081 (LISTEN)\n\
               short line four columns\n";
    let r = parse_port_listing(out);
    assert_eq!(r.len(), 1);
    assert_eq!(r[0].port, 8081);
    assert_eq!(r[0].pid, 1234);
    assert_eq!(r[0].process_name, "node");
    assert_eq!(r[0].protocol, "TCP");
}

#[test]
fn header_line_is_never_a_record() {
    // the header alone, even shaped like a data line, contributes nothing
    let out = "node 1234 dev 23u IPv4 123456 0t0 TCP *:8081 (LISTEN)";
    let r = parse_port_listing(out);
    assert_eq!(r.len(), 0);
}

#[test]
fn listing_is_sorted_ascending_and_in_range() {
    let out = "COMMAND PID USER FD TYPE DEVICE SIZE/OFF NODE NAME\n\
               c 3 u 4u IPv4 1 0t0 TCP *:9999\n\
               a 1 u 4u IPv4 1 0t0 TCP *:3000\n\
               d 4 u 4u IPv4 1 0t0 TCP 127.0.0.1:2999\n\
               b 2 u 4u IPv4 1 0t0 TCP 127.0.0.1:8080\n";
    let r = parse_port_listing(out);
    let ports: Vec<u16> = r.iter().map(|p| p.port).collect();
    assert_eq!(ports, vec![3000, 8080, 9999]);
    for p in &r {
        assert!(3000 <= p.port && p.port <= 9999);
    }
}

#[test]
fn listing_utility_failures_fail_the_whole_scan() {
    let not_run = ListingOutcome::NotRun { error: "No such file or directory".to_string() };
    assert_eq!(
        scan_from_outcome(&not_run).err(),
        Some("Error executing lsof: No such file or directory".to_string())
    );
    let nonzero = ListingOutcome::Completed { success: false, stdout: "junk".to_string() };
    assert_eq!(
        scan_from_outcome(&nonzero).err(),
        Some("Failed to execute lsof command".to_string())
    );
}

#[test]
fn successful_listing_run_is_parsed() {
    let ok = ListingOutcome::Completed {
        success: true,
        stdout: "HEADER\nnode 1234 dev 23u IPv4 1 0t0 TCP *:8081 (LISTEN)\n".to_string(),
    };
    let r = scan_from_outcome(&ok).expect("successful run must parse");
    assert_eq!(r.len(), 1);
    assert_eq!(r[0].port, 8081);
}

#[test]
fn sort_ports_orders_ascending_and_keeps_records() {
    let mk = |port: u16, pid: u32, name: &str| PortInfo {
        port,
        pid,
        process_name: name.to_string(),
        protocol: "TCP".to_string(),
    };
    let v = vec![mk(9000, 3, "c"), mk(3001, 1, "a"), mk(4000, 2, "b")];
    let r = sort_ports(v);
    let ports: Vec<u16> = r.iter().map(|p| p.port).collect();
    assert_eq!(ports, vec![3001, 4000, 9000]);
    let names: Vec<&str> = r.iter().map(|p| p.process_name.as_str()).collect();
    assert_eq!(names, vec!["a", "b", "c"]);
}
