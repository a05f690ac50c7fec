//! In-memory recording implementations of the bus capabilities, for
//! exercising the driver without hardware: a transport that logs every byte
//! and can be told to fail one write, and lines and a delay source that log
//! what they were driven to.

use vstd::prelude::*;

use crate::bus::DelayProvider;
use crate::bus::OutputLine;
use crate::bus::Transport;
use crate::bus::TransportError;

verus! {

/// A transport that appends every accepted byte to a log. It can be
/// constructed to fail exactly one `write_all` call, identified by its
/// zero-based position among all calls, to exercise abort paths.
pub struct RecordingTransport {
    log: Vec<u8>,
    calls: usize,
    fail_at: Option<usize>,
}

impl RecordingTransport {
    /// A transport that accepts everything.
    pub fn new() -> (t: Self)
        ensures
            t.written() == Seq::<u8>::empty(),
    {
        RecordingTransport { log: Vec::new(), calls: 0, fail_at: None }
    }

    /// A transport whose `n`-th write call (counting from zero) reports a
    /// transport failure; every other call succeeds.
    pub fn failing_at(n: usize) -> (t: Self)
        ensures
            t.written() == Seq::<u8>::empty(),
    {
        RecordingTransport { log: Vec::new(), calls: 0, fail_at: Some(n) }
    }

    /// Every byte accepted so far.
    pub fn bytes(&self) -> (r: &Vec<u8>)
        ensures
            r@ == self.written(),
    {
        &self.log
    }
}

impl Transport for RecordingTransport {
    closed spec fn written(&self) -> Seq<u8> {
        self.log@
    }

    fn write_all(&mut self, data: &Vec<u8>) -> (r: Result<(), TransportError>) {
        let fail = match self.fail_at {
            Some(n) => n == self.calls,
            None => false,
        };
        if self.calls < usize::MAX {
            self.calls = self.calls + 1;
        }
        if fail {
            Err(TransportError)
        } else {
            let ghost pre = self.log@;
            let n = data.len();
            let mut i: usize = 0;
            while i < n
                invariant
                    n == data@.len(),
                    i <= n,
                    self.log@ == pre + data@.take(i as int),
                decreases n - i,
            {
                let b = data[i];
                proof {
                    assert(pre + data@.take(i as int + 1) =~= (pre + data@.take(i as int)).push(
                        data@[i as int],
                    ));
                }
                self.log.push(b);
                i += 1;
            }
            proof {
                assert(data@.take(n as int) =~= data@);
            }
            Ok(())
        }
    }
}

/// A digital output line that logs every level it is driven to.
pub struct RecordingLine {
    log: Vec<bool>,
}

impl RecordingLine {
    /// A line with no activity yet.
    pub fn new() -> (t: Self)
        ensures
            t.levels() == Seq::<bool>::empty(),
    {
        RecordingLine { log: Vec::new() }
    }

    /// Every level the line has been driven to, oldest first.
    pub fn history(&self) -> (r: &Vec<bool>)
        ensures
            r@ == self.levels(),
    {
        &self.log
    }
}

impl OutputLine for RecordingLine {
    closed spec fn levels(&self) -> Seq<bool> {
        self.log@
    }

    fn set_level(&mut self, high: bool) {
        self.log.push(high);
    }
}

/// A delay source that logs every requested delay instead of blocking.
pub struct RecordingDelay {
    log: Vec<u32>,
}

impl RecordingDelay {
    /// A delay source with no activity yet.
    pub fn new() -> (t: Self)
        ensures
            t.elapsed() == Seq::<u32>::empty(),
    {
        RecordingDelay { log: Vec::new() }
    }

    /// Every delay requested so far, in milliseconds, oldest first.
    pub fn history(&self) -> (r: &Vec<u32>)
        ensures
            r@ == self.elapsed(),
    {
        &self.log
    }
}

impl DelayProvider for RecordingDelay {
    closed spec fn elapsed(&self) -> Seq<u32> {
        self.log@
    }

    fn delay_ms(&mut self, ms: u32) {
        self.log.push(ms);
    }
}

} // verus!
