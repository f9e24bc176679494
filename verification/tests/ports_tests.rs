//! Tests for the port partition: each worker's sequence, the termination
//! rule, and the coverage of the whole scan.

use ip_sniffer::ports::{worker_assignments, worker_ports};

/// The termination rule, written out directly: probe the current port,
/// stop once `65535 - port <= increment`, otherwise advance.
fn expected_ports(start: i32, increment: i32) -> Vec<i32> {
    let mut r = Vec::new();
    let mut port = start;
    loop {
        r.push(port);
        if 65535 - port <= increment {
            break;
        }
        port += increment;
    }
    r
}

#[test]
fn worker_ports_matches_termination_rule() {
    for &(start, increment) in &[(1, 4), (3, 4), (1, 2), (2, 3), (1, 1), (65534, 7), (65535, 1)] {
        assert_eq!(worker_ports(start, increment), expected_ports(start, increment));
    }
}

#[test]
fn worker_ports_small_stride_boundary() {
    // With stride 2 and start 1, the last probed port is 65533: the rule
    // stops there even though 65535 is odd too.
    let ports = worker_ports(1, 2);
    assert_eq!(ports[0], 1);
    assert_eq!(*ports.last().unwrap(), 65533);
    assert_eq!(ports.len(), 32767);
}

#[test]
fn worker_ports_single_when_start_near_top() {
    assert_eq!(worker_ports(65535, 1), vec![65535]);
    assert_eq!(worker_ports(65534, 100), vec![65534]);
}

#[test]
fn scan_union_covers_all_but_multiples() {
    // The union over t in [1, n) of worker t's ports is exactly the ports
    // in [1, 65534] that are not multiples of n.
    let n = 4;
    let mut probed = vec![false; 65536];
    for t in 1..n {
        for p in worker_ports(t, n) {
            assert!(!probed[p as usize], "port {} probed twice", p);
            probed[p as usize] = true;
        }
    }
    for p in 0..65536usize {
        let expected = p >= 1 && p <= 65534 && p % (n as usize) != 0;
        assert_eq!(probed[p], expected, "port {}", p);
    }
}

#[test]
fn port_zero_and_top_port_never_probed() {
    for n in [2, 3, 5, 7, 250] {
        for t in 1..n {
            for p in worker_ports(t, n) {
                assert!(p != 0);
                assert!(p != 65535);
                assert!(p % n != 0);
            }
        }
    }
}

#[test]
fn assignments_one_per_worker_index() {
    let a = worker_assignments(5);
    assert_eq!(a, vec![(1, 5), (2, 5), (3, 5), (4, 5)]);
}

#[test]
fn assignments_empty_for_one_or_fewer_workers() {
    assert!(worker_assignments(1).is_empty());
    assert!(worker_assignments(0).is_empty());
    assert!(worker_assignments(-3).is_empty());
}
