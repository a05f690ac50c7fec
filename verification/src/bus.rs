//! The bus abstractions the driver consumes — a byte transport, a digital
//! output line, a millisecond delay source — and the ghost record of what
//! the driver has done with them.
//!
//! Each capability is a one-method trait whose specification exposes the
//! full history of the object: the bytes a transport has accepted, the
//! levels a line has been driven to, the delays that were requested. The
//! driver's own contracts are stated over a single interleaved event log,
//! and its invariant pins the log's projections to those histories.

use vstd::prelude::*;

verus! {

/// A failure reported by the transport. The driver aborts the operation in
/// progress and surfaces this to the caller; it never retries.
#[derive(Clone, Copy, Debug, PartialEq, Eq)]
pub struct TransportError;

/// Writes an ordered sequence of bytes to the bus, all or nothing.
pub trait Transport {
    /// Every byte this transport has accepted, in order. Implementations
    /// inside this crate give this a real definition; an implementation
    /// outside the verified world inherits the default, and what is proved
    /// through it then holds only as far as that implementation honors
    /// `write_all`'s contract.
    open spec fn written(&self) -> Seq<u8> {
        Seq::empty()
    }

    /// Append `data` to the bus. On failure nothing is considered written.
    fn write_all(&mut self, data: &Vec<u8>) -> (r: Result<(), TransportError>)
        ensures
            r is Ok ==> final(self).written() == old(self).written() + data@,
            r is Err ==> final(self).written() == old(self).written(),
    ;
}

/// A digital output line that can be driven high or low. Driving it never
/// fails at this layer.
pub trait OutputLine {
    /// Every level this line has been driven to, in order.
    open spec fn levels(&self) -> Seq<bool> {
        Seq::empty()
    }

    /// Drive the line high (`true`) or low (`false`).
    fn set_level(&mut self, high: bool)
        ensures
            final(self).levels() == old(self).levels().push(high),
    ;
}

/// Blocks the calling thread for a whole number of milliseconds.
pub trait DelayProvider {
    /// Every delay that has been requested, in milliseconds, in order.
    open spec fn elapsed(&self) -> Seq<u32> {
        Seq::empty()
    }

    /// Block for at least `ms` milliseconds.
    fn delay_ms(&mut self, ms: u32)
        ensures
            final(self).elapsed() == old(self).elapsed().push(ms),
    ;
}

/// One step of the driver's interaction with the hardware.
#[verifier::ext_equal]
pub ghost enum BusEvent {
    /// The data/command line was driven low and one command byte crossed.
    Cmd(u8),
    /// The data/command line was driven high and one data byte crossed.
    Dat(u8),
    /// The data/command line was driven high and a block of data bytes
    /// crossed in a single transfer.
    Blk(Seq<u8>),
    /// The data/command line was driven but the write then failed, so no
    /// byte crossed.
    Dc(bool),
    /// The reset line was driven to this level.
    Res(bool),
    /// The delay source was asked to block for this many milliseconds.
    Wait(u32),
}

/// The bytes one event sends over the bus.
pub open spec fn event_bytes(e: BusEvent) -> Seq<u8> {
    match e {
        BusEvent::Cmd(b) => seq![b],
        BusEvent::Dat(b) => seq![b],
        BusEvent::Blk(s) => s,
        BusEvent::Dc(_) => Seq::empty(),
        BusEvent::Res(_) => Seq::empty(),
        BusEvent::Wait(_) => Seq::empty(),
    }
}

/// The levels one event drives the data/command line to.
pub open spec fn event_dc(e: BusEvent) -> Seq<bool> {
    match e {
        BusEvent::Cmd(_) => seq![false],
        BusEvent::Dat(_) => seq![true],
        BusEvent::Blk(_) => seq![true],
        BusEvent::Dc(l) => seq![l],
        BusEvent::Res(_) => Seq::empty(),
        BusEvent::Wait(_) => Seq::empty(),
    }
}

/// The levels one event drives the reset line to.
pub open spec fn event_res(e: BusEvent) -> Seq<bool> {
    match e {
        BusEvent::Res(l) => seq![l],
        _ => Seq::empty(),
    }
}

/// The delays one event requests.
pub open spec fn event_waits(e: BusEvent) -> Seq<u32> {
    match e {
        BusEvent::Wait(ms) => seq![ms],
        _ => Seq::empty(),
    }
}

/// All bytes a sequence of events sends over the bus, in order.
pub open spec fn bytes_of(evs: Seq<BusEvent>) -> Seq<u8>
    decreases evs.len(),
{
    if evs.len() == 0 {
        Seq::empty()
    } else {
        bytes_of(evs.drop_last()) + event_bytes(evs.last())
    }
}

/// All levels a sequence of events drives the data/command line to.
pub open spec fn dc_of(evs: Seq<BusEvent>) -> Seq<bool>
    decreases evs.len(),
{
    if evs.len() == 0 {
        Seq::empty()
    } else {
        dc_of(evs.drop_last()) + event_dc(evs.last())
    }
}

/// All levels a sequence of events drives the reset line to.
pub open spec fn res_of(evs: Seq<BusEvent>) -> Seq<bool>
    decreases evs.len(),
{
    if evs.len() == 0 {
        Seq::empty()
    } else {
        res_of(evs.drop_last()) + event_res(evs.last())
    }
}

/// All delays a sequence of events requests.
pub open spec fn waits_of(evs: Seq<BusEvent>) -> Seq<u32>
    decreases evs.len(),
{
    if evs.len() == 0 {
        Seq::empty()
    } else {
        waits_of(evs.drop_last()) + event_waits(evs.last())
    }
}

/// Appending one event extends each projection by that event's contribution.
pub proof fn lemma_projections_push(evs: Seq<BusEvent>, e: BusEvent)
    ensures
        bytes_of(evs.push(e)) == bytes_of(evs) + event_bytes(e),
        dc_of(evs.push(e)) == dc_of(evs) + event_dc(e),
        res_of(evs.push(e)) == res_of(evs) + event_res(e),
        waits_of(evs.push(e)) == waits_of(evs) + event_waits(e),
{
    assert(evs.push(e).drop_last() =~= evs);
    assert(evs.push(e).last() == e);
}

/// The projections of the empty event sequence are empty.
pub proof fn lemma_projections_empty()
    ensures
        bytes_of(Seq::empty()) == Seq::<u8>::empty(),
        dc_of(Seq::empty()) == Seq::<bool>::empty(),
        res_of(Seq::empty()) == Seq::<bool>::empty(),
        waits_of(Seq::empty()) == Seq::<u32>::empty(),
{
}

/// The projections of a one-event sequence are that event's contributions.
pub proof fn lemma_projections_singleton(e: BusEvent)
    ensures
        bytes_of(seq![e]) == event_bytes(e),
        dc_of(seq![e]) == event_dc(e),
        res_of(seq![e]) == event_res(e),
        waits_of(seq![e]) == event_waits(e),
{
    lemma_projections_push(Seq::empty(), e);
    lemma_projections_empty();
    assert(Seq::empty().push(e) =~= seq![e]);
    assert(Seq::<u8>::empty() + event_bytes(e) =~= event_bytes(e));
    assert(Seq::<bool>::empty() + event_dc(e) =~= event_dc(e));
    assert(Seq::<bool>::empty() + event_res(e) =~= event_res(e));
    assert(Seq::<u32>::empty() + event_waits(e) =~= event_waits(e));
}

/// Each projection distributes over concatenation of event sequences.
pub proof fn lemma_projections_add(a: Seq<BusEvent>, b: Seq<BusEvent>)
    ensures
        bytes_of(a + b) == bytes_of(a) + bytes_of(b),
        dc_of(a + b) == dc_of(a) + dc_of(b),
        res_of(a + b) == res_of(a) + res_of(b),
        waits_of(a + b) == waits_of(a) + waits_of(b),
    decreases b.len(),
{
    if b.len() == 0 {
        assert(a + b =~= a);
        assert(bytes_of(a) + bytes_of(b) =~= bytes_of(a));
        assert(dc_of(a) + dc_of(b) =~= dc_of(a));
        assert(res_of(a) + res_of(b) =~= res_of(a));
        assert(waits_of(a) + waits_of(b) =~= waits_of(a));
    } else {
        lemma_projections_add(a, b.drop_last());
        assert((a + b).drop_last() =~= a + b.drop_last());
        assert((a + b).last() == b.last());
        assert(bytes_of(a) + bytes_of(b.drop_last()) + event_bytes(b.last()) =~= bytes_of(a) + (
        bytes_of(b.drop_last()) + event_bytes(b.last())));
        assert(dc_of(a) + dc_of(b.drop_last()) + event_dc(b.last()) =~= dc_of(a) + (dc_of(
            b.drop_last(),
        ) + event_dc(b.last())));
        assert(res_of(a) + res_of(b.drop_last()) + event_res(b.last()) =~= res_of(a) + (res_of(
            b.drop_last(),
        ) + event_res(b.last())));
        assert(waits_of(a) + waits_of(b.drop_last()) + event_waits(b.last()) =~= waits_of(a) + (
        waits_of(b.drop_last()) + event_waits(b.last())));
    }
}

} // verus!
