//! Tests for the scan driver run against a table of probe outcomes, and
//! for the collector.

use ip_sniffer::driver::drive_with_probes;
use ip_sniffer::Collector;

fn no_open_ports() -> Vec<bool> {
    vec![false; 65536]
}

#[test]
fn no_open_ports_empty_result() {
    let open = no_open_ports();
    assert!(drive_with_probes(4, &open).is_empty());
    assert!(drive_with_probes(2, &open).is_empty());
}

#[test]
fn covered_open_port_reported_exactly_once() {
    let mut open = no_open_ports();
    open[8081] = true;
    let reported = drive_with_probes(5, &open);
    assert_eq!(reported.iter().filter(|&&p| p == 8081).count(), 1);
    assert_eq!(reported, vec![8081]);
}

#[test]
fn port_on_stride_multiple_not_reported() {
    // 8080 is a multiple of 5, so no worker of a five-worker scan probes it.
    let mut open = no_open_ports();
    open[8080] = true;
    assert!(drive_with_probes(5, &open).is_empty());
    // With three workers it is covered again.
    assert_eq!(drive_with_probes(3, &open), vec![8080]);
}

#[test]
fn one_worker_scans_nothing() {
    let mut open = no_open_ports();
    open[80] = true;
    open[443] = true;
    assert!(drive_with_probes(1, &open).is_empty());
    assert!(drive_with_probes(0, &open).is_empty());
    assert!(drive_with_probes(-2, &open).is_empty());
}

#[test]
fn repeated_scans_report_the_same_set() {
    let mut open = no_open_ports();
    for p in [22, 80, 443, 8080, 65533] {
        open[p] = true;
    }
    let mut first = drive_with_probes(6, &open);
    let mut second = drive_with_probes(6, &open);
    first.sort();
    second.sort();
    assert_eq!(first, second);
}

#[test]
fn open_ports_outside_stride_multiples_all_reported() {
    let mut open = no_open_ports();
    for p in [22, 80, 443, 8081] {
        open[p] = true;
    }
    let mut reported = drive_with_probes(3, &open);
    reported.sort();
    // 443 is not a multiple of 3; neither are 22, 80 or 8081.
    assert_eq!(reported, vec![22, 80, 443, 8081]);
}

#[test]
fn collector_keeps_arrival_order() {
    let mut c = Collector::new();
    c.record(443);
    c.record(22);
    c.record(443);
    assert_eq!(c.into_ports(), vec![443, 22, 443]);
}

#[test]
fn collector_empty_without_reports() {
    let c = Collector::new();
    assert!(c.into_ports().is_empty());
}
