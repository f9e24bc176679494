//! The result collector: accumulates reported open ports in arrival order.

use vstd::prelude::*;

verus! {

/// Accumulates the ports reported by the workers, preserving arrival order
/// and performing no deduplication.  The workers probe disjoint port sets,
/// so duplicates are not expected; the collector does not defend against
/// them.
pub struct Collector {
    ports: Vec<i32>,
}

impl View for Collector {
    type V = Seq<i32>;

    closed spec fn view(&self) -> Seq<i32> {
        self.ports@
    }
}

impl Collector {
    /// A collector that has received nothing yet.
    pub fn new() -> (c: Collector)
        ensures
            c@ == Seq::<i32>::empty(),
    {
        Collector { ports: Vec::new() }
    }

    /// Appends one reported port, after everything received so far.
    pub fn record(&mut self, port: i32)
        ensures
            final(self)@ == old(self)@.push(port),
    {
        self.ports.push(port);
    }

    /// The finished sequence, in arrival order, once all workers are done.
    pub fn into_ports(self) -> (r: Vec<i32>)
        ensures
            r@ == self@,
    {
        self.ports
    }
}

} // verus!
