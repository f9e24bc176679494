//! The scan driver's decision logic, with the probe outcomes taken as data.
//!
//! The binary around the library performs the blocking connection attempts;
//! everything the driver decides — which workers exist, which ports each one
//! probes, and what the collected result must hold — is verified here against
//! `open_ports`, a table that records for every port whether a connection
//! attempt to it succeeds.

use vstd::prelude::*;
use crate::ports::{
    lemma_mod_worker_probes, lemma_probe_seq_index, lemma_scan_coverage, lemma_worker_probes_mod,
    probe_seq, scan_probes, worker_ports, worker_probes,
};

verus! {

/// What any correct scan outcome looks like, as a predicate over the
/// sequence `r` of reported ports: every reported port was probed and open,
/// every probed open port is reported, and no port is reported twice.
/// Arrival order is left open — a concurrent run delivers reports in
/// whatever order the workers produce them.
pub open spec fn valid_outcome(n: int, open: Seq<bool>, r: Seq<i32>) -> bool {
    &&& forall|i: int|
        0 <= i < r.len() ==> (1 <= #[trigger] r[i] <= 65534 && scan_probes(n, r[i] as int)
            && open[r[i] as int])
    &&& forall|p: int| 1 <= p <= 65534 && scan_probes(n, p) && open[p] ==> r.contains(p as i32)
    &&& forall|i: int, j: int| 0 <= i < j < r.len() ==> r[i] != r[j]
}

/// Runs the whole scan against a table of probe outcomes: spawning worker
/// `t` for every `t` in `1 .. worker_count`, probing that worker's ports in
/// order, and collecting each port whose probe succeeds.
///
/// `open_ports[p]` records whether a connection attempt to port `p`
/// succeeds.  The result is a correct outcome in the sense of
/// `valid_outcome`; a `worker_count` of one or less spawns no workers and
/// yields an empty result.
pub fn drive_with_probes(worker_count: i32, open_ports: &Vec<bool>) -> (r: Vec<i32>)
    requires
        open_ports@.len() == 65536,
        worker_count <= 65535,
    ensures
        valid_outcome(worker_count as int, open_ports@, r@),
        worker_count <= 1 ==> r@.len() == 0,
{
    let n = worker_count;
    let mut r: Vec<i32> = Vec::new();
    let mut t: i32 = 1;
    while t < n
        invariant
            open_ports@.len() == 65536,
            n <= 65535,
            1 <= t,
            n >= 2 ==> t <= n,
            n < 2 ==> t == 1,
            n < 2 ==> r@.len() == 0,
            forall|i: int|
                0 <= i < r@.len() ==> (1 <= #[trigger] r@[i] <= 65534 && 1 <= r@[i] as int % (n as int)
                    < t && open_ports@[r@[i] as int]),
            forall|p: int|
                1 <= p <= 65534 && 1 <= p % (n as int) < t && open_ports@[p] ==> r@.contains(p as i32),
            forall|i: int, j: int| 0 <= i < j < r@.len() ==> r@[i] != r@[j],
        decreases n - t,
    {
        let ports = worker_ports(t, n);
        let ghost pseq = probe_seq(t as int, n as int);
        let mut k: usize = 0;
        while k < ports.len()
            invariant
                open_ports@.len() == 65536,
                2 <= n <= 65535,
                1 <= t < n,
                k <= ports.len(),
                ports@.map_values(|x: i32| x as int) == pseq,
                pseq == probe_seq(t as int, n as int),
                forall|i: int|
                    0 <= i < r@.len() ==> (1 <= #[trigger] r@[i] <= 65534 && 1 <= r@[i] as int
                        % (n as int) <= t && open_ports@[r@[i] as int]),
                forall|i: int|
                    0 <= i < r@.len() && r@[i] as int % (n as int) == t ==> exists|j: int|
                        0 <= j < k && pseq[j] == #[trigger] r@[i] as int,
                forall|p: int|
                    1 <= p <= 65534 && 1 <= p % (n as int) < t && open_ports@[p] ==> r@.contains(p as i32),
                forall|j: int|
                    0 <= j < k && open_ports@[#[trigger] pseq[j]] ==> r@.contains(ports@[j]),
                forall|i: int, j: int| 0 <= i < j < r@.len() ==> r@[i] != r@[j],
            decreases ports.len() - k,
        {
            let v = ports[k];
            proof {
                assert(pseq[k as int] == v as int);
                assert(worker_probes(t as int, n as int, v as int)) by {
                    assert(probe_seq(t as int, n as int)[k as int] == v as int);
                    assert(probe_seq(t as int, n as int).contains(v as int));
                }
                lemma_worker_probes_mod(n as int, t as int, v as int);
            }
            if open_ports[v as usize] {
                let ghost prev = r@;
                proof {
                    // `v` is not yet in `r`: earlier workers own other residues,
                    // and this worker's earlier ports are strictly smaller.
                    assert forall|i: int| 0 <= i < prev.len() implies prev[i] != v by {
                        if prev[i] as int % (n as int) == t as int {
                            let j = choose|j: int|
                                0 <= j < k && pseq[j] == #[trigger] prev[i] as int;
                            lemma_probe_seq_index(t as int, n as int, j);
                            lemma_probe_seq_index(t as int, n as int, k as int);
                            assert(j * (n as int) < (k as int) * (n as int)) by (nonlinear_arith)
                                requires
                                    j < k as int,
                                    (n as int) >= 1,
                            ;
                        }
                    }
                }
                r.push(v);
                proof {
                    assert forall|x: i32| prev.contains(x) implies r@.contains(x) by {
                        let idx = choose|idx: int| 0 <= idx < prev.len() && prev[idx] == x;
                        assert(r@[idx] == x);
                    }
                    assert forall|i: int|
                        0 <= i < r@.len() && r@[i] as int % (n as int) == t implies exists|j: int|
                        0 <= j < k + 1 && pseq[j] == #[trigger] r@[i] as int by {
                        if i < prev.len() {
                            let j = choose|j: int|
                                0 <= j < k && pseq[j] == #[trigger] prev[i] as int;
                            assert(0 <= j < k + 1 && pseq[j] == r@[i] as int);
                        } else {
                            assert(pseq[k as int] == r@[i] as int);
                        }
                    }
                    assert forall|j: int|
                        0 <= j < k + 1 && open_ports@[#[trigger] pseq[j]] implies r@.contains(
                        ports@[j],
                    ) by {
                        if j < k {
                            assert(prev.contains(ports@[j]));
                            let idx = choose|idx: int|
                                0 <= idx < prev.len() && prev[idx] == ports@[j];
                            assert(r@[idx] == ports@[j]);
                        } else {
                            assert(r@[prev.len() as int] == v);
                        }
                    }
                }
            } else {
                proof {
                    assert forall|j: int|
                        0 <= j < k + 1 && open_ports@[#[trigger] pseq[j]] implies r@.contains(
                        ports@[j],
                    ) by {
                        if j < k {
                            assert(r@.contains(ports@[j]));
                        } else {
                            assert(pseq[j] == v as int);
                            assert(!open_ports@[v as int]);
                        }
                    }
                }
            }
            k = k + 1;
        }
        proof {
            // Every open port of this worker is now collected.
            assert forall|p: int|
                1 <= p <= 65534 && 1 <= p % (n as int) < t + 1 && open_ports@[p] implies r@.contains(
                p as i32,
            ) by {
                if p % (n as int) == t as int {
                    lemma_mod_worker_probes(n as int, p);
                    assert(pseq.contains(p));
                    let j = choose|j: int| 0 <= j < pseq.len() && pseq[j] == p;
                    assert(ports@.map_values(|x: i32| x as int)[j] == p);
                    assert(ports@[j] as int == p);
                    assert(open_ports@[pseq[j]]);
                    assert(r@.contains(ports@[j]));
                }
            }
        }
        t = t + 1;
    }
    proof {
        if n >= 2 {
            lemma_scan_coverage(n as int);
            assert forall|i: int|
                0 <= i < r@.len() implies (1 <= #[trigger] r@[i] <= 65534 && scan_probes(
                n as int,
                r@[i] as int,
            ) && open_ports@[r@[i] as int]) by {
                assert(1 <= r@[i] as int % (n as int) < n as int);
                vstd::arithmetic::div_mod::lemma_mod_division_less_than_divisor(r@[i] as int, n as int);
            }
        } else {
            assert(r@.len() == 0);
            assert forall|p: int|
                1 <= p <= 65534 && scan_probes(n as int, p) && open_ports@[p] implies r@.contains(
                p as i32,
            ) by {
                let tt = choose|tt: int| 1 <= tt < n as int && worker_probes(tt, n as int, p);
                assert(false);
            }
        }
    }
    r
}

/// An open port covered by the scan's partition appears in every correct
/// outcome exactly once: at some position, and at no two distinct positions.
pub proof fn lemma_open_port_reported_once(n: int, open: Seq<bool>, r: Seq<i32>, p: int)
    requires
        valid_outcome(n, open, r),
        1 <= p <= 65534,
        scan_probes(n, p),
        open[p],
    ensures
        exists|i: int| 0 <= i < r.len() && r[i] == p as i32,
        forall|i: int, j: int|
            0 <= i < r.len() && 0 <= j < r.len() && r[i] == p as i32 && r[j] == p as i32 ==> i
                == j,
{
    assert(r.contains(p as i32));
    assert forall|i: int, j: int|
        0 <= i < r.len() && 0 <= j < r.len() && r[i] == p as i32 && r[j] == p as i32 implies i
        == j by {
        if i < j {
            assert(r[i] != r[j]);
        }
        if j < i {
            assert(r[j] != r[i]);
        }
    }
}

/// With no open port anywhere, every correct outcome is empty.
pub proof fn lemma_no_open_ports_no_reports(n: int, open: Seq<bool>, r: Seq<i32>)
    requires
        valid_outcome(n, open, r),
        open.len() == 65536,
        forall|p: int| 0 <= p < open.len() ==> !open[p],
    ensures
        r.len() == 0,
{
    if r.len() > 0 {
        assert(open[r[0] as int]);
    }
}

/// Two scans of an unchanged set of listen as intng ports report the same set of
/// ports: any two correct outcomes for the same worker count and the same
/// probe table hold exactly the same values, though possibly in different
/// orders.
pub proof fn lemma_scan_idempotent(n: int, open: Seq<bool>, r1: Seq<i32>, r2: Seq<i32>)
    requires
        valid_outcome(n, open, r1),
        valid_outcome(n, open, r2),
    ensures
        forall|x: i32| r1.contains(x) <==> r2.contains(x),
{
    assert forall|x: i32| r1.contains(x) <==> r2.contains(x) by {
        if r1.contains(x) {
            let i = choose|i: int| 0 <= i < r1.len() && r1[i] == x;
            assert(1 <= r1[i] <= 65534 && scan_probes(n, r1[i] as int) && open[r1[i] as int]);
            assert(r2.contains((x as int) as i32));
        }
        if r2.contains(x) {
            let i = choose|i: int| 0 <= i < r2.len() && r2[i] == x;
            assert(1 <= r2[i] <= 65534 && scan_probes(n, r2[i] as int) && open[r2[i] as int]);
            assert(r1.contains((x as int) as i32));
        }
    }
}

} // verus!
