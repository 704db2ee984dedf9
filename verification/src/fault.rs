//! Configuration of the fault-injecting storage decorator: bounds on
//! the latency it injects into every storage operation, and an
//! optional injected error with its probability. The decorator itself
//! performs the I/O and the random draws; the decisions those draws
//! feed are verified here.

use vstd::prelude::*;

verus! {

/// Options of the fault-injecting filesystem decorator: inclusive
/// latency bounds in nanoseconds, and an error injected whenever a
/// draw out of one hundred falls at or under `prob`.
#[derive(Clone, PartialEq, Eq, Debug)]
pub struct FileSystemWrapperOption {
    /// Least injected latency, in nanoseconds.
    pub min_latency_nanos: u64,
    /// Greatest injected latency, in nanoseconds.
    pub max_latency_nanos: u64,
    /// Description of the error to inject, if any.
    pub injected_error: Option<String>,
    /// A draw in 0..=100 at or under this value injects the error.
    pub prob: usize,
}

impl FileSystemWrapperOption {
    /// The latency bounds are ordered and the probability is a
    /// percentage.
    pub open spec fn wf(self) -> bool {
        self.min_latency_nanos <= self.max_latency_nanos && self.prob <= 100
    }

    /// Validate whether the given option is valid.
    pub fn validate(&self) -> (r: bool)
        ensures
            r == self.wf(),
    {
        self.min_latency_nanos <= self.max_latency_nanos && self.prob <= 100
    }

    /// Latency to inject for one raw random draw: the draw mapped into
    /// the configured inclusive range.
    pub fn latency_for(&self, sample: u64) -> (r: u64)
        requires
            self.wf(),
        ensures
            self.min_latency_nanos <= r <= self.max_latency_nanos,
            r == self.min_latency_nanos + (sample as int) % ((self.max_latency_nanos
                - self.min_latency_nanos) + 1),
    {
        let span: u128 = (self.max_latency_nanos - self.min_latency_nanos) as u128 + 1;
        let rem: u128 = sample as u128 % span;
        proof {
            assert(rem < span);
        }
        let off: u64 = rem as u64;
        self.min_latency_nanos + off
    }

    /// Should one raw draw in 0..=100 inject the configured error?
    pub fn should_inject_error(&self, sample: usize) -> (r: bool)
        ensures
            r == (self.injected_error is Some && sample <= self.prob),
    {
        match &self.injected_error {
            Some(_) => sample <= self.prob,
            None => false,
        }
    }
}

} // verus!
