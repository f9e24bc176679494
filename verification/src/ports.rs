//! The port partition: which ports each worker probes, and how the whole
//! scan covers the port space.

use vstd::prelude::*;
use vstd::arithmetic::div_mod::{
    lemma_div_pos_is_pos, lemma_fundamental_div_mod, lemma_fundamental_div_mod_converse_mod,
    lemma_mod_multiples_basic, lemma_small_mod,
};

verus! {

/// The arithmetic sequence of ports a worker probes when it starts at
/// `start` and advances by `stride`: the worker probes the current port,
/// stops once `65535 - port <= stride` holds for that port, and otherwise
/// moves on to `port + stride`.
pub open spec fn probe_seq(start: int, stride: int) -> Seq<int>
    recommends
        1 <= stride,
    decreases 65535 - start,
        when 1 <= stride
{
    if 65535 - start <= stride {
        seq![start]
    } else {
        seq![start] + probe_seq(start + stride, stride)
    }
}

/// Whether the worker that starts at `start` with the given `stride` probes
/// port `p`.
pub open spec fn worker_probes(start: int, stride: int, p: int) -> bool {
    probe_seq(start, stride).contains(p)
}

/// Whether a scan with `worker_count` workers probes port `p`: some spawned
/// worker (`t` in `1 .. worker_count`) has `p` in its sequence.
pub open spec fn scan_probes(worker_count: int, p: int) -> bool {
    exists|t: int| 1 <= t < worker_count && worker_probes(t, worker_count, p)
}

/// The `k`-th port a worker probes is `start + k * stride`.
pub proof fn lemma_probe_seq_index(start: int, stride: int, k: int)
    requires
        1 <= stride,
        0 <= k < probe_seq(start, stride).len(),
    ensures
        probe_seq(start, stride)[k] == start + k * stride,
    decreases 65535 - start,
{
    if 65535 - start <= stride {
        assert(k == 0);
    } else if k == 0 {
    } else {
        lemma_probe_seq_index(start + stride, stride, k - 1);
        assert((start + stride) + (k - 1) * stride == start + k * stride) by (nonlinear_arith);
    }
}

/// A worker's sequence holds exactly the ports congruent to `start` modulo
/// `stride` that lie in `[start, 65535)`, together with `start` itself.
pub proof fn lemma_probe_seq_contains(start: int, stride: int, p: int)
    requires
        1 <= start,
        1 <= stride,
    ensures
        worker_probes(start, stride, p) <==> (p == start || (start <= p < 65535 && (p - start)
            % stride == 0)),
    decreases 65535 - start,
{
    let s = probe_seq(start, stride);
    if 65535 - start <= stride {
        assert(s == seq![start]);
        assert(s.contains(start)) by {
            assert(s[0] == start);
        }
        if start <= p < 65535 && (p - start) % stride == 0 && p != start {
            lemma_mod_positive_multiple_ge(p - start, stride);
            assert(p >= start + stride);
            assert(false);
        }
        if s.contains(p) {
            let i = choose|i: int| 0 <= i < s.len() && s[i] == p;
            assert(p == start);
        }
    } else {
        lemma_probe_seq_contains(start + stride, stride, p);
        let rest = probe_seq(start + stride, stride);
        assert(s == seq![start] + rest);
        if p == start || (start <= p < 65535 && (p - start) % stride == 0) {
            if p == start {
                assert(s[0] == p);
                assert(s.contains(p));
            } else {
                lemma_mod_positive_multiple_ge(p - start, stride);
                assert(p >= start + stride);
                assert((p - (start + stride)) % stride == 0) by {
                    lemma_mod_shift_down(p - start, stride);
                }
                assert(rest.contains(p));
                let i = choose|i: int| 0 <= i < rest.len() && rest[i] == p;
                assert(s[i + 1] == p);
                assert(s.contains(p));
            }
        }
        if s.contains(p) {
            let i = choose|i: int| 0 <= i < s.len() && s[i] == p;
            if i == 0 {
                assert(p == start);
            } else {
                assert(rest[i - 1] == p);
                assert(rest.contains(p));
                if p == start + stride {
                    assert((p - start) % stride == 0) by {
                        lemma_mod_multiples_basic(1, stride);
                    }
                } else {
                    assert((p - start) % stride == 0) by {
                        lemma_mod_shift_down(p - start, stride);
                    }
                }
            }
        }
    }
}

/// A positive multiple of `stride` is at least `stride`.
proof fn lemma_mod_positive_multiple_ge(x: int, stride: int)
    requires
        1 <= stride,
        0 < x,
        x % stride == 0,
    ensures
        x >= stride,
{
    lemma_fundamental_div_mod(x, stride);
    lemma_div_pos_is_pos(x, stride);
    let q = x / stride;
    assert(x == stride * q);
    assert(q >= 1) by (nonlinear_arith)
        requires
            x == stride * q,
            x > 0,
            stride >= 1,
            q >= 0,
    ;
    assert(stride * q >= stride) by (nonlinear_arith)
        requires
            q >= 1,
            stride >= 1,
    ;
}

/// Subtracting the modulus once does not change divisibility.
proof fn lemma_mod_shift_down(x: int, stride: int)
    requires
        1 <= stride,
    ensures
        (x - stride) % stride == x % stride,
{
    lemma_fundamental_div_mod(x, stride);
    vstd::arithmetic::div_mod::lemma_mod_division_less_than_divisor(x, stride);
    let q = x / stride;
    assert(x - stride == (q - 1) * stride + x % stride) by (nonlinear_arith)
        requires
            x == stride * q + x % stride,
    ;
    lemma_fundamental_div_mod_converse_mod(x - stride, stride, q - 1, x % stride);
}

/// A port probed by worker `t` of a scan with `n` workers satisfies
/// `p % n == t` and lies in `[1, 65534]`.
pub proof fn lemma_worker_probes_mod(n: int, t: int, p: int)
    requires
        2 <= n <= 65535,
        1 <= t < n,
        worker_probes(t, n, p),
    ensures
        p % n == t,
        1 <= p <= 65534,
{
    lemma_probe_seq_contains(t, n, p);
    if p == t {
        lemma_small_mod(t as nat, n as nat);
    } else {
        lemma_fundamental_div_mod((p - t) / n, n);
        let q = (p - t) / n;
        lemma_fundamental_div_mod(p - t, n);
        assert(p - t == n * q);
        lemma_fundamental_div_mod_converse_mod(p, n, q, t);
    }
}

/// Conversely, a port in `[1, 65534]` with `p % n == t` for some worker
/// index `t` is probed by that worker.
pub proof fn lemma_mod_worker_probes(n: int, p: int)
    requires
        2 <= n <= 65535,
        1 <= p <= 65534,
        p % n != 0,
    ensures
        worker_probes(p % n, n, p),
        1 <= p % n < n,
{
    vstd::arithmetic::div_mod::lemma_mod_division_less_than_divisor(p, n);
    let t = p % n;
    lemma_fundamental_div_mod(p, n);
    let q = p / n;
    lemma_div_pos_is_pos(p, n);
    assert(p == n * q + t);
    assert(n * q >= 0) by (nonlinear_arith)
        requires
            n >= 1,
            q >= 0,
    ;
    assert(p >= t);
    assert((p - t) % n == 0) by {
        assert(p - t == n * q);
        lemma_mod_multiples_basic(q, n);
        assert((q * n) % n == 0);
        assert(n * q == q * n) by (nonlinear_arith);
    }
    lemma_probe_seq_contains(t, n, p);
}

/// The full coverage statement: a scan with `n` workers (for `n` in
/// `[2, 65535]`) probes exactly the ports in `[1, 65534]` that are not
/// multiples of `n`.  In particular port `0`, every multiple of `n`, and
/// port `65535` are never probed.
pub proof fn lemma_scan_coverage(n: int)
    requires
        2 <= n <= 65535,
    ensures
        forall|p: int| #[trigger] scan_probes(n, p) <==> (1 <= p <= 65534 && p % n != 0),
{
    assert forall|p: int| #[trigger] scan_probes(n, p) <==> (1 <= p <= 65534 && p % n != 0) by {
        if scan_probes(n, p) {
            let t = choose|t: int| 1 <= t < n && worker_probes(t, n, p);
            lemma_worker_probes_mod(n, t, p);
        }
        if 1 <= p <= 65534 && p % n != 0 {
            lemma_mod_worker_probes(n, p);
            assert(worker_probes(p % n, n, p));
        }
    }
}

/// Two spawned workers never probe the same port.
pub proof fn lemma_workers_disjoint(n: int, t1: int, t2: int, p: int)
    requires
        2 <= n <= 65535,
        1 <= t1 < n,
        1 <= t2 < n,
        worker_probes(t1, n, p),
        worker_probes(t2, n, p),
    ensures
        t1 == t2,
{
    lemma_worker_probes_mod(n, t1, p);
    lemma_worker_probes_mod(n, t2, p);
}

/// The ports assigned to one worker, in probing order.
///
/// The returned list is exactly the sequence the termination rule yields:
/// the worker probes the current port and stops once `65535 - port` is at
/// most `increment`.
pub fn worker_ports(start: i32, increment: i32) -> (r: Vec<i32>)
    requires
        1 <= start <= 65535,
        1 <= increment,
    ensures
        r@.map_values(|x: i32| x as int) == probe_seq(start as int, increment as int),
{
    let mut r: Vec<i32> = Vec::new();
    let mut port: i32 = start;
    loop
        invariant_except_break
            1 <= port <= 65535,
            1 <= increment,
            start <= port,
            probe_seq(start as int, increment as int) == r@.map_values(|x: i32| x as int)
                + probe_seq(port as int, increment as int),
        ensures
            r@.map_values(|x: i32| x as int) == probe_seq(start as int, increment as int),
        decreases 65535 - port,
    {
        let ghost prev = r@;
        r.push(port);
        assert(r@.map_values(|x: i32| x as int) == prev.map_values(|x: i32| x as int) + seq![
            port as int,
        ]) by {
            assert(r@.map_values(|x: i32| x as int) =~= prev.map_values(|x: i32| x as int)
                + seq![port as int]);
        }
        if 65535 - port <= increment {
            assert(probe_seq(port as int, increment as int) == seq![port as int]);
            break;
        }
        assert(probe_seq(port as int, increment as int) == seq![port as int] + probe_seq(
            port as int + increment as int,
            increment as int,
        ));
        assert(probe_seq(start as int, increment as int) =~= r@.map_values(|x: i32| x as int)
            + probe_seq(port as int + increment as int, increment as int));
        port = port + increment;
    }
    r
}

/// The worker assignments a scan driver spawns: one `(start, stride)` pair
/// per worker index `t` in `1 .. worker_count`, each with
/// `stride == worker_count`.  A `worker_count` of one or less yields no
/// assignments at all.
pub fn worker_assignments(worker_count: i32) -> (r: Vec<(i32, i32)>)
    ensures
        r@.len() == (if worker_count >= 1 {
            (worker_count - 1) as int
        } else {
            0
        }),
        forall|i: int| 0 <= i < r@.len() ==> #[trigger] r@[i] == (((i + 1) as i32), worker_count),
{
    let mut r: Vec<(i32, i32)> = Vec::new();
    let mut t: i32 = 1;
    while t < worker_count
        invariant
            1 <= t,
            worker_count >= 2 ==> t <= worker_count,
            worker_count < 2 ==> t == 1,
            r@.len() == t - 1,
            forall|i: int| 0 <= i < r@.len() ==> #[trigger] r@[i] == (((i + 1) as i32),
            worker_count),
        decreases worker_count - t,
    {
        r.push((t, worker_count));
        t = t + 1;
    }
    r
}

} // verus!
