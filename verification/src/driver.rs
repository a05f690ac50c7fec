//! The controller driver: sequences the SSD1322 register protocol over the
//! transport and the two control lines, and owns the frame store.
//!
//! Every public operation's contract states the exact bus activity it
//! performs as a sequence of [`BusEvent`]s, and the driver's invariant pins
//! the projections of that event log to the histories of the transport and
//! the control lines.

use vstd::prelude::*;

use crate::bus::BusEvent;
use crate::bus::DelayProvider;
use crate::bus::OutputLine;
use crate::bus::Transport;
use crate::bus::TransportError;
use crate::bus::bytes_of;
use crate::bus::dc_of;
use crate::bus::event_bytes;
use crate::bus::event_dc;
use crate::bus::event_res;
use crate::bus::lemma_projections_add;
use crate::bus::lemma_projections_push;
use crate::bus::res_of;
use crate::bus::waits_of;
use crate::frame::FrameModel;
use crate::frame::FrameStore;
use crate::frame::HEIGHT;
use crate::frame::blank;
use crate::frame::clear_spec;
use crate::frame::frame_inv;
use crate::frame::set_pixel_spec;
use crate::frame::swap_spec;

verus! {

pub const SSD1322_CMD_COL_ADDRESS: u8 = 0x15;

pub const SSD1322_CMD_WRITE_RAM: u8 = 0x5C;

pub const SSD1322_CMD_ROW_ADDRESS: u8 = 0x75;

pub const SSD1322_CMD_MUX_RATIO: u8 = 0xCA;

pub const SSD1322_CMD_REMAP: u8 = 0xA0;

pub const SSD1322_CMD_START_LINE: u8 = 0xA1;

pub const SSD1322_CMD_OFFSET_LINE: u8 = 0xA2;

pub const SSD1322_CMD_MODE_ALL_OFF: u8 = 0xA4;

pub const SSD1322_CMD_MODE_ALL_ON: u8 = 0xA5;

pub const SSD1322_CMD_MODE_NORMAL: u8 = 0xA6;

pub const SSD1322_CMD_MODE_INVERT: u8 = 0xA7;

pub const SSD1322_CMD_DISPLAY_ON: u8 = 0xAF;

pub const SSD1322_CMD_DISPLAY_OFF: u8 = 0xAE;

pub const SSD1322_CMD_CLOCK_DIVIDER: u8 = 0xB3;

/// The display modes the controller offers. The driver programs the normal
/// (non-inverted, not all-on/all-off) mode during initialization.
#[allow(dead_code)]
pub enum SSD1322Mode {
    Normal,
    AllOn,
    AllOff,
    Invert,
}

/// The command byte that selects a display mode.
pub open spec fn mode_cmd(m: SSD1322Mode) -> u8 {
    match m {
        SSD1322Mode::Normal => SSD1322_CMD_MODE_NORMAL,
        SSD1322Mode::AllOn => SSD1322_CMD_MODE_ALL_ON,
        SSD1322Mode::AllOff => SSD1322_CMD_MODE_ALL_OFF,
        SSD1322Mode::Invert => SSD1322_CMD_MODE_INVERT,
    }
}

/// The power-on reset phase: reset line high, low for the 10 ms pulse, high
/// again, then the 300 ms settle hold.
pub open spec fn reset_events() -> Seq<BusEvent> {
    seq![
        BusEvent::Res(true),
        BusEvent::Res(false),
        BusEvent::Wait(10),
        BusEvent::Res(true),
        BusEvent::Wait(300),
    ]
}

/// The register programming phase, in the order the controller requires:
/// clock, mux ratio, start and offset rows, remap, normal mode, display
/// off, and the two vendor enhancement register pairs.
pub open spec fn register_events() -> Seq<BusEvent> {
    seq![
        BusEvent::Cmd(SSD1322_CMD_CLOCK_DIVIDER),
        BusEvent::Dat(0x91),
        BusEvent::Cmd(SSD1322_CMD_MUX_RATIO),
        BusEvent::Dat(0x3F),
        BusEvent::Cmd(SSD1322_CMD_START_LINE),
        BusEvent::Dat(0x00),
        BusEvent::Cmd(SSD1322_CMD_OFFSET_LINE),
        BusEvent::Dat(0x00),
        BusEvent::Cmd(SSD1322_CMD_REMAP),
        BusEvent::Dat(0x16),
        BusEvent::Dat(0x11),
        BusEvent::Cmd(SSD1322_CMD_MODE_NORMAL),
        BusEvent::Cmd(SSD1322_CMD_DISPLAY_OFF),
        BusEvent::Cmd(0xB4),
        BusEvent::Dat(0xA0),
        BusEvent::Dat(0xFD),
        BusEvent::Cmd(0xD1),
        BusEvent::Dat(0x82),
        BusEvent::Dat(0x20),
    ]
}

/// The addressing window commands: columns 0x1C..=0x5B, rows 0x00..=0x3F,
/// then the write-RAM command.
pub open spec fn window_events() -> Seq<BusEvent> {
    seq![
        BusEvent::Cmd(SSD1322_CMD_COL_ADDRESS),
        BusEvent::Dat(0x1C),
        BusEvent::Dat(0x5B),
        BusEvent::Cmd(SSD1322_CMD_ROW_ADDRESS),
        BusEvent::Dat(0x00),
        BusEvent::Dat(0x3F),
        BusEvent::Cmd(SSD1322_CMD_WRITE_RAM),
    ]
}

/// A full flush: the addressing window, then the buffer as one data block.
pub open spec fn flush_events(buf: Seq<u8>) -> Seq<BusEvent> {
    window_events().push(BusEvent::Blk(buf))
}

/// A full initialization with `back` the bytes of the back buffer: reset,
/// register programming, one upload of the back buffer so the first visible
/// frame is defined, display on, and the 200 ms settle wait.
pub open spec fn init_events(back: Seq<u8>) -> Seq<BusEvent> {
    reset_events() + register_events() + flush_events(back) + seq![
        BusEvent::Cmd(SSD1322_CMD_DISPLAY_ON),
        BusEvent::Wait(200),
    ]
}

/// The events that program the clock frequency and divisor.
pub open spec fn clock_events(freq: u8, divisor: u8) -> Seq<BusEvent> {
    seq![
        BusEvent::Cmd(SSD1322_CMD_CLOCK_DIVIDER),
        BusEvent::Dat(((freq & 0x0F) << 4) | (divisor & 0x0F)),
    ]
}

/// The events that program the multiplexing ratio.
pub open spec fn mux_events(h: u8) -> Seq<BusEvent> {
    seq![BusEvent::Cmd(SSD1322_CMD_MUX_RATIO), BusEvent::Dat(h & 0x7F)]
}

/// The events that program the display start row.
pub open spec fn start_row_events(r: u8) -> Seq<BusEvent> {
    seq![BusEvent::Cmd(SSD1322_CMD_START_LINE), BusEvent::Dat(r & 0x7F)]
}

/// The events that program the display offset row.
pub open spec fn offset_row_events(r: u8) -> Seq<BusEvent> {
    seq![BusEvent::Cmd(SSD1322_CMD_OFFSET_LINE), BusEvent::Dat(r & 0x7F)]
}

/// The events that program the remap/orientation register.
pub open spec fn remap_events(a: u8, b: u8) -> Seq<BusEvent> {
    seq![BusEvent::Cmd(SSD1322_CMD_REMAP), BusEvent::Dat(a), BusEvent::Dat(b)]
}

/// The events that program the row address window.
pub open spec fn row_range_events(r1: u8, r2: u8) -> Seq<BusEvent> {
    seq![BusEvent::Cmd(SSD1322_CMD_ROW_ADDRESS), BusEvent::Dat(r1 & 0x7F), BusEvent::Dat(r2 & 0x7F)]
}

/// The events that program the column address window.
pub open spec fn col_range_events(c1: u8, c2: u8) -> Seq<BusEvent> {
    seq![BusEvent::Cmd(SSD1322_CMD_COL_ADDRESS), BusEvent::Dat(c1 & 0x7F), BusEvent::Dat(c2 & 0x7F)]
}

/// The level the data/command line is driven to just before the bytes of
/// `e` would cross the bus: low for a command, high for data.
pub open spec fn attempt_level(e: BusEvent) -> bool {
    !(e is Cmd)
}

/// `post` extends `pre` by an aborted attempt at the event list `full`:
/// some prefix of `full` went through, the data/command line was driven for
/// the next transfer, and that transfer failed, so the operation stopped.
pub open spec fn aborted(pre: Seq<BusEvent>, post: Seq<BusEvent>, full: Seq<BusEvent>) -> bool {
    exists|n: int|
        0 <= n < full.len() && post == pre + #[trigger] full.take(n) + seq![
            BusEvent::Dc(attempt_level(full[n])),
        ]
}

/// An abort at the very first transfer of `full`.
pub proof fn lemma_aborted_here(pre: Seq<BusEvent>, post: Seq<BusEvent>, full: Seq<BusEvent>)
    requires
        full.len() > 0,
        post == pre.push(BusEvent::Dc(attempt_level(full[0]))),
    ensures
        aborted(pre, post, full),
{
    assert(full.take(0) =~= Seq::<BusEvent>::empty());
    assert(pre + full.take(0) + seq![BusEvent::Dc(attempt_level(full[0]))] =~= post);
}

/// An abort inside a later phase composes: if `done` of `full` already went
/// through and the rest aborted, the whole of `full` aborted.
pub proof fn lemma_aborted_compose(
    pre: Seq<BusEvent>,
    mid: Seq<BusEvent>,
    post: Seq<BusEvent>,
    done: Seq<BusEvent>,
    part: Seq<BusEvent>,
    full: Seq<BusEvent>,
)
    requires
        mid == pre + done,
        aborted(mid, post, part),
        (done + part).is_prefix_of(full),
    ensures
        aborted(pre, post, full),
{
    let n = choose|n: int|
        0 <= n < part.len() && post == mid + #[trigger] part.take(n) + seq![
            BusEvent::Dc(attempt_level(part[n])),
        ];
    let m = done.len() + n;
    let dp = done + part;
    assert(dp[m as int] == full.subrange(0, dp.len() as int)[m as int]);
    assert(full[m as int] == part[n]);
    assert(full.take(m as int) =~= done + part.take(n));
    assert(pre + full.take(m) + seq![BusEvent::Dc(attempt_level(full[m]))] =~= post);
}

/// An aborted operation sent some leading part of the bytes of `full` and
/// nothing beyond them.
pub proof fn lemma_aborted_bytes(pre: Seq<BusEvent>, post: Seq<BusEvent>, full: Seq<BusEvent>)
    requires
        aborted(pre, post, full),
    ensures
        bytes_of(pre).is_prefix_of(bytes_of(post)),
        bytes_of(post).is_prefix_of(bytes_of(pre + full)),
{
    let n = choose|n: int|
        0 <= n < full.len() && post == pre + #[trigger] full.take(n) + seq![
            BusEvent::Dc(attempt_level(full[n])),
        ];
    let stub = seq![BusEvent::Dc(attempt_level(full[n]))];
    lemma_projections_add(pre + full.take(n), stub);
    lemma_projections_add(pre, full.take(n));
    crate::bus::lemma_projections_singleton(BusEvent::Dc(attempt_level(full[n])));
    assert(bytes_of(post) =~= bytes_of(pre) + bytes_of(full.take(n)));
    assert(full =~= full.take(n) + full.skip(n));
    lemma_projections_add(full.take(n), full.skip(n));
    lemma_projections_add(pre, full);
    assert(bytes_of(post).is_prefix_of(bytes_of(pre + full)));
}

/// The SSD1322 driver: the transport, the data/command and reset lines, the
/// two pixel buffers, and the ghost record of all bus activity so far.
pub struct SSD1322<T: Transport, L: OutputLine> {
    transport: T,
    dc: L,
    res: L,
    frames: FrameStore,
    events: Ghost<Seq<BusEvent>>,
    base_bus: Ghost<Seq<u8>>,
    base_dc: Ghost<Seq<bool>>,
    base_res: Ghost<Seq<bool>>,
}
impl<T: Transport, L: OutputLine> SSD1322<T, L> {
    /// Everything the driver has done on the bus since construction.
    pub closed spec fn events(&self) -> Seq<BusEvent> {
        self.events@
    }

    /// The abstract state of the two pixel buffers.
    pub closed spec fn frame(&self) -> FrameModel {
        self.frames@
    }

    /// The bytes the transport has accepted, including any before
    /// construction.
    pub closed spec fn bus_written(&self) -> Seq<u8> {
        self.transport.written()
    }

    /// The levels the data/command line has been driven to.
    pub closed spec fn dc_levels(&self) -> Seq<bool> {
        self.dc.levels()
    }

    /// The levels the reset line has been driven to.
    pub closed spec fn res_levels(&self) -> Seq<bool> {
        self.res.levels()
    }

    /// The transport history at construction time.
    pub closed spec fn base_bus(&self) -> Seq<u8> {
        self.base_bus@
    }

    /// The data/command line history at construction time.
    pub closed spec fn base_dc(&self) -> Seq<bool> {
        self.base_dc@
    }

    /// The reset line history at construction time.
    pub closed spec fn base_res(&self) -> Seq<bool> {
        self.base_res@
    }

    /// Well-formedness: the frame store is intact and the event log is
    /// faithful — its projections are exactly what the transport and the
    /// two lines have seen since construction.
    pub closed spec fn wf(&self) -> bool {
        &&& self.frames.wf()
        &&& self.transport.written() == self.base_bus@ + bytes_of(self.events@)
        &&& self.dc.levels() == self.base_dc@ + dc_of(self.events@)
        &&& self.res.levels() == self.base_res@ + res_of(self.events@)
    }

    /// What well-formedness gives a caller: the buffers obey the model
    /// invariant and the event log is pinned to the real histories.
    pub proof fn lemma_log_pinned(&self)
        requires
            self.wf(),
        ensures
            frame_inv(self.frame()),
            self.bus_written() == self.base_bus() + bytes_of(self.events()),
            self.dc_levels() == self.base_dc() + dc_of(self.events()),
            self.res_levels() == self.base_res() + res_of(self.events()),
    {
        self.frames.lemma_wf_inv();
    }

    /// Take ownership of the handles. Performs no bus traffic; both buffers
    /// start zeroed with buffer 0 as front.
    pub fn new(transport: T, dc: L, res: L) -> (s: Self)
        ensures
            s.wf(),
            s.events() == Seq::<BusEvent>::empty(),
            s.frame().front == blank(),
            s.frame().back == blank(),
            s.base_bus() == transport.written(),
            s.base_dc() == dc.levels(),
            s.base_res() == res.levels(),
            s.bus_written() == transport.written(),
            s.dc_levels() == dc.levels(),
            s.res_levels() == res.levels(),
    {
        let ghost bb = transport.written();
        let ghost bd = dc.levels();
        let ghost br = res.levels();
        let s = SSD1322 {
            transport,
            dc,
            res,
            frames: FrameStore::new(),
            events: Ghost(Seq::empty()),
            base_bus: Ghost(bb),
            base_dc: Ghost(bd),
            base_res: Ghost(br),
        };
        proof {
            assert(s.transport.written() =~= s.base_bus@ + bytes_of(s.events@));
            assert(s.dc.levels() =~= s.base_dc@ + dc_of(s.events@));
            assert(s.res.levels() =~= s.base_res@ + res_of(s.events@));
        }
        s
    }

    /// Drive the data/command line low and send one command byte.
    fn write_cmd(&mut self, cmd: u8) -> (r: Result<(), TransportError>)
        requires
            old(self).wf(),
        ensures
            final(self).wf(),
            final(self).frame() == old(self).frame(),
            final(self).base_bus() == old(self).base_bus(),
            final(self).base_dc() == old(self).base_dc(),
            final(self).base_res() == old(self).base_res(),
            final(self).res_levels() == old(self).res_levels(),
            r is Ok ==> final(self).events() == old(self).events().push(BusEvent::Cmd(cmd)),
            r is Err ==> final(self).events() == old(self).events().push(BusEvent::Dc(false)),
    {
        self.dc.set_level(false);
        let data = vec![cmd];
        let r = self.transport.write_all(&data);
        match r {
            Ok(_) => {
                proof {
                    let e = BusEvent::Cmd(cmd);
                    lemma_projections_push(self.events@, e);
                    assert(self.base_bus@ + (bytes_of(self.events@) + event_bytes(e)) =~= (
                    self.base_bus@ + bytes_of(self.events@)) + event_bytes(e));
                    assert(self.base_dc@ + (dc_of(self.events@) + event_dc(e)) =~= (self.base_dc@
                        + dc_of(self.events@)) + event_dc(e));
                    assert(self.base_res@ + (res_of(self.events@) + event_res(e)) =~= self.base_res@
                        + res_of(self.events@));
                    assert((self.base_bus@ + bytes_of(self.events@)) + event_bytes(e) =~= (
                    self.base_bus@ + bytes_of(self.events@)) + data@);
                    assert((self.base_dc@ + dc_of(self.events@)) + event_dc(e) =~= (self.base_dc@
                        + dc_of(self.events@)).push(false));
                }
                self.events = Ghost(self.events@.push(BusEvent::Cmd(cmd)));
                Ok(())
            },
            Err(e) => {
                proof {
                    let ev = BusEvent::Dc(false);
                    lemma_projections_push(self.events@, ev);
                    assert(self.base_bus@ + (bytes_of(self.events@) + event_bytes(ev))
                        =~= self.base_bus@ + bytes_of(self.events@));
                    assert(self.base_dc@ + (dc_of(self.events@) + event_dc(ev)) =~= (self.base_dc@
                        + dc_of(self.events@)).push(false));
                    assert(self.base_res@ + (res_of(self.events@) + event_res(ev))
                        =~= self.base_res@ + res_of(self.events@));
                }
                self.events = Ghost(self.events@.push(BusEvent::Dc(false)));
                Err(e)
            },
        }
    }

    /// Drive the data/command line high and send one data byte.
    fn write_data(&mut self, data: u8) -> (r: Result<(), TransportError>)
        requires
            old(self).wf(),
        ensures
            final(self).wf(),
            final(self).frame() == old(self).frame(),
            final(self).base_bus() == old(self).base_bus(),
            final(self).base_dc() == old(self).base_dc(),
            final(self).base_res() == old(self).base_res(),
            final(self).res_levels() == old(self).res_levels(),
            r is Ok ==> final(self).events() == old(self).events().push(BusEvent::Dat(data)),
            r is Err ==> final(self).events() == old(self).events().push(BusEvent::Dc(true)),
    {
        self.dc.set_level(true);
        let buf = vec![data];
        let r = self.transport.write_all(&buf);
        match r {
            Ok(_) => {
                proof {
                    let e = BusEvent::Dat(data);
                    lemma_projections_push(self.events@, e);
                    assert(self.base_bus@ + (bytes_of(self.events@) + event_bytes(e)) =~= (
                    self.base_bus@ + bytes_of(self.events@)) + buf@);
                    assert(self.base_dc@ + (dc_of(self.events@) + event_dc(e)) =~= (self.base_dc@
                        + dc_of(self.events@)).push(true));
                    assert(self.base_res@ + (res_of(self.events@) + event_res(e)) =~= self.base_res@
                        + res_of(self.events@));
                }
                self.events = Ghost(self.events@.push(BusEvent::Dat(data)));
                Ok(())
            },
            Err(e) => {
                proof {
                    let ev = BusEvent::Dc(true);
                    lemma_projections_push(self.events@, ev);
                    assert(self.base_bus@ + (bytes_of(self.events@) + event_bytes(ev))
                        =~= self.base_bus@ + bytes_of(self.events@));
                    assert(self.base_dc@ + (dc_of(self.events@) + event_dc(ev)) =~= (self.base_dc@
                        + dc_of(self.events@)).push(true));
                    assert(self.base_res@ + (res_of(self.events@) + event_res(ev))
                        =~= self.base_res@ + res_of(self.events@));
                }
                self.events = Ghost(self.events@.push(BusEvent::Dc(true)));
                Err(e)
            },
        }
    }

    /// Drive the data/command line high and send one of the two buffers as
    /// a single contiguous block.
    fn send_buffer(&mut self, front: bool) -> (r: Result<(), TransportError>)
        requires
            old(self).wf(),
        ensures
            final(self).wf(),
            final(self).frame() == old(self).frame(),
            final(self).base_bus() == old(self).base_bus(),
            final(self).base_dc() == old(self).base_dc(),
            final(self).base_res() == old(self).base_res(),
            final(self).res_levels() == old(self).res_levels(),
            r is Ok ==> final(self).events() == old(self).events().push(
                BusEvent::Blk(
                    if front {
                        old(self).frame().front
                    } else {
                        old(self).frame().back
                    },
                ),
            ),
            r is Err ==> final(self).events() == old(self).events().push(BusEvent::Dc(true)),
    {
        self.dc.set_level(true);
        let buf = if front {
            self.frames.front_data()
        } else {
            self.frames.back_data()
        };
        let ghost sent = buf@;
        let r = self.transport.write_all(buf);
        match r {
            Ok(_) => {
                proof {
                    let e = BusEvent::Blk(sent);
                    lemma_projections_push(self.events@, e);
                    assert(self.base_bus@ + (bytes_of(self.events@) + event_bytes(e)) =~= (
                    self.base_bus@ + bytes_of(self.events@)) + sent);
                    assert(self.base_dc@ + (dc_of(self.events@) + event_dc(e)) =~= (self.base_dc@
                        + dc_of(self.events@)).push(true));
                    assert(self.base_res@ + (res_of(self.events@) + event_res(e))
                        =~= self.base_res@ + res_of(self.events@));
                }
                self.events = Ghost(self.events@.push(BusEvent::Blk(sent)));
                Ok(())
            },
            Err(e) => {
                proof {
                    let ev = BusEvent::Dc(true);
                    lemma_projections_push(self.events@, ev);
                    assert(self.base_bus@ + (bytes_of(self.events@) + event_bytes(ev))
                        =~= self.base_bus@ + bytes_of(self.events@));
                    assert(self.base_dc@ + (dc_of(self.events@) + event_dc(ev)) =~= (self.base_dc@
                        + dc_of(self.events@)).push(true));
                    assert(self.base_res@ + (res_of(self.events@) + event_res(ev))
                        =~= self.base_res@ + res_of(self.events@));
                }
                self.events = Ghost(self.events@.push(BusEvent::Dc(true)));
                Err(e)
            },
        }
    }

    /// Drive the reset line to a level.
    fn set_res(&mut self, high: bool)
        requires
            old(self).wf(),
        ensures
            final(self).wf(),
            final(self).frame() == old(self).frame(),
            final(self).base_bus() == old(self).base_bus(),
            final(self).base_dc() == old(self).base_dc(),
            final(self).base_res() == old(self).base_res(),
            final(self).res_levels() == old(self).res_levels().push(high),
            final(self).events() == old(self).events().push(BusEvent::Res(high)),
    {
        self.res.set_level(high);
        proof {
            let e = BusEvent::Res(high);
            lemma_projections_push(self.events@, e);
            assert(self.base_bus@ + (bytes_of(self.events@) + event_bytes(e)) =~= self.base_bus@
                + bytes_of(self.events@));
            assert(self.base_dc@ + (dc_of(self.events@) + event_dc(e)) =~= self.base_dc@ + dc_of(
                self.events@,
            ));
            assert(self.base_res@ + (res_of(self.events@) + event_res(e)) =~= (self.base_res@
                + res_of(self.events@)).push(high));
        }
        self.events = Ghost(self.events@.push(BusEvent::Res(high)));
    }

    /// Ask the delay source to block for `ms` milliseconds.
    fn wait<D: DelayProvider>(&mut self, delay: &mut D, ms: u32)
        requires
            old(self).wf(),
        ensures
            final(self).wf(),
            final(self).frame() == old(self).frame(),
            final(self).base_bus() == old(self).base_bus(),
            final(self).base_dc() == old(self).base_dc(),
            final(self).base_res() == old(self).base_res(),
            final(self).res_levels() == old(self).res_levels(),
            final(self).events() == old(self).events().push(BusEvent::Wait(ms)),
            final(delay).elapsed() == old(delay).elapsed().push(ms),
    {
        delay.delay_ms(ms);
        proof {
            let e = BusEvent::Wait(ms);
            lemma_projections_push(self.events@, e);
            assert(self.base_bus@ + (bytes_of(self.events@) + event_bytes(e)) =~= self.base_bus@
                + bytes_of(self.events@));
            assert(self.base_dc@ + (dc_of(self.events@) + event_dc(e)) =~= self.base_dc@ + dc_of(
                self.events@,
            ));
            assert(self.base_res@ + (res_of(self.events@) + event_res(e)) =~= self.base_res@
                + res_of(self.events@));
        }
        self.events = Ghost(self.events@.push(BusEvent::Wait(ms)));
    }

    /// Send one command byte followed by one data byte.
    fn cmd_data(&mut self, cmd: u8, d: u8) -> (r: Result<(), TransportError>)
        requires
            old(self).wf(),
        ensures
            final(self).wf(),
            final(self).frame() == old(self).frame(),
            final(self).base_bus() == old(self).base_bus(),
            final(self).base_dc() == old(self).base_dc(),
            final(self).base_res() == old(self).base_res(),
            final(self).res_levels() == old(self).res_levels(),
            r is Ok ==> final(self).events() == old(self).events() + seq![
                BusEvent::Cmd(cmd),
                BusEvent::Dat(d),
            ],
            r is Err ==> aborted(
                old(self).events(),
                final(self).events(),
                seq![BusEvent::Cmd(cmd), BusEvent::Dat(d)],
            ),
    {
        let ghost pre = self.events@;
        let ghost full = seq![BusEvent::Cmd(cmd), BusEvent::Dat(d)];
        match self.write_cmd(cmd) {
            Err(e) => {
                proof {
                    lemma_aborted_here(pre, self.events@, full);
                }
                return Err(e);
            },
            Ok(_) => {},
        }
        match self.write_data(d) {
            Err(e) => {
                proof {
                    assert(full.take(1) =~= seq![BusEvent::Cmd(cmd)]);
                    assert(self.events@ =~= pre + full.take(1) + seq![BusEvent::Dc(true)]);
                    assert(aborted(pre, self.events@, full));
                }
                return Err(e);
            },
            Ok(_) => {},
        }
        proof {
            assert(self.events@ =~= pre + full);
        }
        Ok(())
    }

    /// Send one command byte followed by two data bytes.
    fn cmd_data2(&mut self, cmd: u8, d1: u8, d2: u8) -> (r: Result<(), TransportError>)
        requires
            old(self).wf(),
        ensures
            final(self).wf(),
            final(self).frame() == old(self).frame(),
            final(self).base_bus() == old(self).base_bus(),
            final(self).base_dc() == old(self).base_dc(),
            final(self).base_res() == old(self).base_res(),
            final(self).res_levels() == old(self).res_levels(),
            r is Ok ==> final(self).events() == old(self).events() + seq![
                BusEvent::Cmd(cmd),
                BusEvent::Dat(d1),
                BusEvent::Dat(d2),
            ],
            r is Err ==> aborted(
                old(self).events(),
                final(self).events(),
                seq![BusEvent::Cmd(cmd), BusEvent::Dat(d1), BusEvent::Dat(d2)],
            ),
    {
        let ghost pre = self.events@;
        let ghost full = seq![BusEvent::Cmd(cmd), BusEvent::Dat(d1), BusEvent::Dat(d2)];
        match self.write_cmd(cmd) {
            Err(e) => {
                proof {
                    lemma_aborted_here(pre, self.events@, full);
                }
                return Err(e);
            },
            Ok(_) => {},
        }
        match self.write_data(d1) {
            Err(e) => {
                proof {
                    assert(full.take(1) =~= seq![BusEvent::Cmd(cmd)]);
                    assert(self.events@ =~= pre + full.take(1) + seq![BusEvent::Dc(true)]);
                    assert(aborted(pre, self.events@, full));
                }
                return Err(e);
            },
            Ok(_) => {},
        }
        match self.write_data(d2) {
            Err(e) => {
                proof {
                    assert(full.take(2) =~= seq![BusEvent::Cmd(cmd), BusEvent::Dat(d1)]);
                    assert(self.events@ =~= pre + full.take(2) + seq![BusEvent::Dc(true)]);
                    assert(aborted(pre, self.events@, full));
                }
                return Err(e);
            },
            Ok(_) => {},
        }
        proof {
            assert(self.events@ =~= pre + full);
        }
        Ok(())
    }

    /// Program the clock frequency and divisor register.
    fn set_clock(&mut self, freq: u8, divisor: u8) -> (r: Result<(), TransportError>)
        requires
            old(self).wf(),
        ensures
            final(self).wf(),
            final(self).frame() == old(self).frame(),
            final(self).base_bus() == old(self).base_bus(),
            final(self).base_dc() == old(self).base_dc(),
            final(self).base_res() == old(self).base_res(),
            final(self).res_levels() == old(self).res_levels(),
            r is Ok ==> final(self).events() == old(self).events() + clock_events(freq, divisor),
            r is Err ==> aborted(
                old(self).events(),
                final(self).events(),
                clock_events(freq, divisor),
            ),
    {
        self.cmd_data(SSD1322_CMD_CLOCK_DIVIDER, ((freq & 0x0F) << 4) | (divisor & 0x0F))
    }

    /// Program the multiplexing ratio: how many rows are actively scanned.
    fn set_mux_ratio(&mut self, h: u8) -> (r: Result<(), TransportError>)
        requires
            old(self).wf(),
        ensures
            final(self).wf(),
            final(self).frame() == old(self).frame(),
            final(self).base_bus() == old(self).base_bus(),
            final(self).base_dc() == old(self).base_dc(),
            final(self).base_res() == old(self).base_res(),
            final(self).res_levels() == old(self).res_levels(),
            r is Ok ==> final(self).events() == old(self).events() + mux_events(h),
            r is Err ==> aborted(old(self).events(), final(self).events(), mux_events(h)),
    {
        self.cmd_data(SSD1322_CMD_MUX_RATIO, h & 0x7F)
    }

    /// Program the display start row.
    fn set_start_row(&mut self, row: u8) -> (r: Result<(), TransportError>)
        requires
            old(self).wf(),
        ensures
            final(self).wf(),
            final(self).frame() == old(self).frame(),
            final(self).base_bus() == old(self).base_bus(),
            final(self).base_dc() == old(self).base_dc(),
            final(self).base_res() == old(self).base_res(),
            final(self).res_levels() == old(self).res_levels(),
            r is Ok ==> final(self).events() == old(self).events() + start_row_events(row),
            r is Err ==> aborted(old(self).events(), final(self).events(), start_row_events(row)),
    {
        self.cmd_data(SSD1322_CMD_START_LINE, row & 0x7F)
    }

    /// Program the display offset row.
    fn set_offset_row(&mut self, row: u8) -> (r: Result<(), TransportError>)
        requires
            old(self).wf(),
        ensures
            final(self).wf(),
            final(self).frame() == old(self).frame(),
            final(self).base_bus() == old(self).base_bus(),
            final(self).base_dc() == old(self).base_dc(),
            final(self).base_res() == old(self).base_res(),
            final(self).res_levels() == old(self).res_levels(),
            r is Ok ==> final(self).events() == old(self).events() + offset_row_events(row),
            r is Err ==> aborted(old(self).events(), final(self).events(), offset_row_events(row)),
    {
        self.cmd_data(SSD1322_CMD_OFFSET_LINE, row & 0x7F)
    }

    /// Program the remap/orientation register with its two data bytes.
    fn set_remap(&mut self, a: u8, b: u8) -> (r: Result<(), TransportError>)
        requires
            old(self).wf(),
        ensures
            final(self).wf(),
            final(self).frame() == old(self).frame(),
            final(self).base_bus() == old(self).base_bus(),
            final(self).base_dc() == old(self).base_dc(),
            final(self).base_res() == old(self).base_res(),
            final(self).res_levels() == old(self).res_levels(),
            r is Ok ==> final(self).events() == old(self).events() + remap_events(a, b),
            r is Err ==> aborted(old(self).events(), final(self).events(), remap_events(a, b)),
    {
        self.cmd_data2(SSD1322_CMD_REMAP, a, b)
    }

    /// Program the row address window.
    fn set_row_range(&mut self, r1: u8, r2: u8) -> (r: Result<(), TransportError>)
        requires
            old(self).wf(),
        ensures
            final(self).wf(),
            final(self).frame() == old(self).frame(),
            final(self).base_bus() == old(self).base_bus(),
            final(self).base_dc() == old(self).base_dc(),
            final(self).base_res() == old(self).base_res(),
            final(self).res_levels() == old(self).res_levels(),
            r is Ok ==> final(self).events() == old(self).events() + row_range_events(r1, r2),
            r is Err ==> aborted(old(self).events(), final(self).events(), row_range_events(r1, r2)),
    {
        self.cmd_data2(SSD1322_CMD_ROW_ADDRESS, r1 & 0x7F, r2 & 0x7F)
    }

    /// Program the column address window.
    fn set_column_range(&mut self, c1: u8, c2: u8) -> (r: Result<(), TransportError>)
        requires
            old(self).wf(),
        ensures
            final(self).wf(),
            final(self).frame() == old(self).frame(),
            final(self).base_bus() == old(self).base_bus(),
            final(self).base_dc() == old(self).base_dc(),
            final(self).base_res() == old(self).base_res(),
            final(self).res_levels() == old(self).res_levels(),
            r is Ok ==> final(self).events() == old(self).events() + col_range_events(c1, c2),
            r is Err ==> aborted(old(self).events(), final(self).events(), col_range_events(c1, c2)),
    {
        self.cmd_data2(SSD1322_CMD_COL_ADDRESS, c1 & 0x7F, c2 & 0x7F)
    }

    /// Select a display mode.
    fn set_display_mode(&mut self, mode: SSD1322Mode) -> (r: Result<(), TransportError>)
        requires
            old(self).wf(),
        ensures
            final(self).wf(),
            final(self).frame() == old(self).frame(),
            final(self).base_bus() == old(self).base_bus(),
            final(self).base_dc() == old(self).base_dc(),
            final(self).base_res() == old(self).base_res(),
            final(self).res_levels() == old(self).res_levels(),
            r is Ok ==> final(self).events() == old(self).events() + seq![
                BusEvent::Cmd(mode_cmd(mode)),
            ],
            r is Err ==> aborted(
                old(self).events(),
                final(self).events(),
                seq![BusEvent::Cmd(mode_cmd(mode))],
            ),
    {
        let ghost pre = self.events@;
        let ghost full = seq![BusEvent::Cmd(mode_cmd(mode))];
        let cmd = match mode {
            SSD1322Mode::Normal => SSD1322_CMD_MODE_NORMAL,
            SSD1322Mode::AllOn => SSD1322_CMD_MODE_ALL_ON,
            SSD1322Mode::AllOff => SSD1322_CMD_MODE_ALL_OFF,
            SSD1322Mode::Invert => SSD1322_CMD_MODE_INVERT,
        };
        match self.write_cmd(cmd) {
            Err(e) => {
                proof {
                    lemma_aborted_here(pre, self.events@, full);
                }
                Err(e)
            },
            Ok(_) => {
                proof {
                    assert(self.events@ =~= pre + full);
                }
                Ok(())
            },
        }
    }

    /// Turn the display off.
    fn display_off(&mut self) -> (r: Result<(), TransportError>)
        requires
            old(self).wf(),
        ensures
            final(self).wf(),
            final(self).frame() == old(self).frame(),
            final(self).base_bus() == old(self).base_bus(),
            final(self).base_dc() == old(self).base_dc(),
            final(self).base_res() == old(self).base_res(),
            final(self).res_levels() == old(self).res_levels(),
            r is Ok ==> final(self).events() == old(self).events() + seq![
                BusEvent::Cmd(SSD1322_CMD_DISPLAY_OFF),
            ],
            r is Err ==> aborted(
                old(self).events(),
                final(self).events(),
                seq![BusEvent::Cmd(SSD1322_CMD_DISPLAY_OFF)],
            ),
    {
        let ghost pre = self.events@;
        let ghost full = seq![BusEvent::Cmd(SSD1322_CMD_DISPLAY_OFF)];
        match self.write_cmd(SSD1322_CMD_DISPLAY_OFF) {
            Err(e) => {
                proof {
                    lemma_aborted_here(pre, self.events@, full);
                }
                Err(e)
            },
            Ok(_) => {
                proof {
                    assert(self.events@ =~= pre + full);
                }
                Ok(())
            },
        }
    }

    /// Turn the display on, then hold for the 200 ms settle time.
    fn display_on<D: DelayProvider>(&mut self, delay: &mut D) -> (r: Result<(), TransportError>)
        requires
            old(self).wf(),
        ensures
            final(self).wf(),
            final(self).frame() == old(self).frame(),
            final(self).base_bus() == old(self).base_bus(),
            final(self).base_dc() == old(self).base_dc(),
            final(self).base_res() == old(self).base_res(),
            final(self).res_levels() == old(self).res_levels(),
            r is Ok ==> final(self).events() == old(self).events() + seq![
                BusEvent::Cmd(SSD1322_CMD_DISPLAY_ON),
                BusEvent::Wait(200),
            ],
            r is Ok ==> final(delay).elapsed() == old(delay).elapsed().push(200),
            r is Err ==> aborted(
                old(self).events(),
                final(self).events(),
                seq![BusEvent::Cmd(SSD1322_CMD_DISPLAY_ON), BusEvent::Wait(200)],
            ),
            r is Err ==> final(delay).elapsed() == old(delay).elapsed(),
    {
        let ghost pre = self.events@;
        let ghost full = seq![BusEvent::Cmd(SSD1322_CMD_DISPLAY_ON), BusEvent::Wait(200)];
        match self.write_cmd(SSD1322_CMD_DISPLAY_ON) {
            Err(e) => {
                proof {
                    lemma_aborted_here(pre, self.events@, full);
                }
                return Err(e);
            },
            Ok(_) => {},
        }
        self.wait(delay, 200);
        proof {
            assert(self.events@ =~= pre + full);
        }
        Ok(())
    }

    /// Pulse the reset line: low for the 10 ms reset pulse, then high with
    /// the 300 ms power-on hold.
    fn reset<D: DelayProvider>(&mut self, delay: &mut D)
        requires
            old(self).wf(),
        ensures
            final(self).wf(),
            final(self).frame() == old(self).frame(),
            final(self).base_bus() == old(self).base_bus(),
            final(self).base_dc() == old(self).base_dc(),
            final(self).base_res() == old(self).base_res(),
            final(self).res_levels() == old(self).res_levels() + seq![false, true],
            final(self).events() == old(self).events() + seq![
                BusEvent::Res(false),
                BusEvent::Wait(10),
                BusEvent::Res(true),
                BusEvent::Wait(300),
            ],
            final(delay).elapsed() == old(delay).elapsed() + seq![10u32, 300u32],
    {
        let ghost pre = self.events@;
        self.set_res(false);
        self.wait(delay, 10);
        self.set_res(true);
        self.wait(delay, 300);
        proof {
            assert(self.events@ =~= pre + seq![
                BusEvent::Res(false),
                BusEvent::Wait(10),
                BusEvent::Res(true),
                BusEvent::Wait(300),
            ]);
            assert(delay.elapsed() =~= old(delay).elapsed() + seq![10u32, 300u32]);
            assert(self.res_levels() =~= old(self).res_levels() + seq![false, true]);
        }
    }

    /// Program every configuration register, in the order the controller
    /// requires.
    fn program_registers(&mut self) -> (r: Result<(), TransportError>)
        requires
            old(self).wf(),
        ensures
            final(self).wf(),
            final(self).frame() == old(self).frame(),
            final(self).base_bus() == old(self).base_bus(),
            final(self).base_dc() == old(self).base_dc(),
            final(self).base_res() == old(self).base_res(),
            final(self).res_levels() == old(self).res_levels(),
            r is Ok ==> final(self).events() == old(self).events() + register_events(),
            r is Err ==> aborted(old(self).events(), final(self).events(), register_events()),
    {
        let ghost pre = self.events@;
        let ghost full = register_events();
        let ghost c1 = clock_events(9, 1);
        let ghost c2 = mux_events(63);
        let ghost c3 = start_row_events(0);
        let ghost c4 = offset_row_events(0);
        let ghost c5 = remap_events(0x16, 0x11);
        let ghost c6 = seq![BusEvent::Cmd(SSD1322_CMD_MODE_NORMAL)];
        let ghost c7 = seq![BusEvent::Cmd(SSD1322_CMD_DISPLAY_OFF)];
        let ghost c8 = seq![BusEvent::Cmd(0xB4u8), BusEvent::Dat(0xA0u8), BusEvent::Dat(0xFDu8)];
        let ghost c9 = seq![BusEvent::Cmd(0xD1u8), BusEvent::Dat(0x82u8), BusEvent::Dat(0x20u8)];
        let ghost mut done: Seq<BusEvent> = Seq::empty();
        proof {
            assert(((9u8 & 0x0F) << 4) | (1u8 & 0x0F) == 0x91u8) by (bit_vector);
            assert(63u8 & 0x7F == 0x3Fu8) by (bit_vector);
            assert(0u8 & 0x7F == 0x00u8) by (bit_vector);
            assert(full =~= c1 + c2 + c3 + c4 + c5 + c6 + c7 + c8 + c9);
            assert(self.events@ =~= pre + done);
        }
        match self.set_clock(9, 1) {
            Err(e) => {
                proof {
                    assert(done + c1 =~= full.subrange(0, 2));
                    lemma_aborted_compose(pre, pre + done, self.events@, done, c1, full);
                }
                return Err(e);
            },
            Ok(_) => {
                proof {
                    done = done + c1;
                    assert(self.events@ =~= pre + done);
                }
            },
        }
        match self.set_mux_ratio((HEIGHT - 1) as u8) {
            Err(e) => {
                proof {
                    assert(done + c2 =~= full.subrange(0, 4));
                    lemma_aborted_compose(pre, pre + done, self.events@, done, c2, full);
                }
                return Err(e);
            },
            Ok(_) => {
                proof {
                    done = done + c2;
                    assert(self.events@ =~= pre + done);
                }
            },
        }
        match self.set_start_row(0) {
            Err(e) => {
                proof {
                    assert(done + c3 =~= full.subrange(0, 6));
                    lemma_aborted_compose(pre, pre + done, self.events@, done, c3, full);
                }
                return Err(e);
            },
            Ok(_) => {
                proof {
                    done = done + c3;
                    assert(self.events@ =~= pre + done);
                }
            },
        }
        match self.set_offset_row(0) {
            Err(e) => {
                proof {
                    assert(done + c4 =~= full.subrange(0, 8));
                    lemma_aborted_compose(pre, pre + done, self.events@, done, c4, full);
                }
                return Err(e);
            },
            Ok(_) => {
                proof {
                    done = done + c4;
                    assert(self.events@ =~= pre + done);
                }
            },
        }
        match self.set_remap(0x16, 0x11) {
            Err(e) => {
                proof {
                    assert(done + c5 =~= full.subrange(0, 11));
                    lemma_aborted_compose(pre, pre + done, self.events@, done, c5, full);
                }
                return Err(e);
            },
            Ok(_) => {
                proof {
                    done = done + c5;
                    assert(self.events@ =~= pre + done);
                }
            },
        }
        match self.set_display_mode(SSD1322Mode::Normal) {
            Err(e) => {
                proof {
                    assert(done + c6 =~= full.subrange(0, 12));
                    lemma_aborted_compose(pre, pre + done, self.events@, done, c6, full);
                }
                return Err(e);
            },
            Ok(_) => {
                proof {
                    done = done + c6;
                    assert(self.events@ =~= pre + done);
                }
            },
        }
        match self.display_off() {
            Err(e) => {
                proof {
                    assert(done + c7 =~= full.subrange(0, 13));
                    lemma_aborted_compose(pre, pre + done, self.events@, done, c7, full);
                }
                return Err(e);
            },
            Ok(_) => {
                proof {
                    done = done + c7;
                    assert(self.events@ =~= pre + done);
                }
            },
        }
        // Vendor "display enhancement A": fixed magic byte values.
        match self.cmd_data2(0xB4, 0xA0, 0xFD) {
            Err(e) => {
                proof {
                    assert(done + c8 =~= full.subrange(0, 16));
                    lemma_aborted_compose(pre, pre + done, self.events@, done, c8, full);
                }
                return Err(e);
            },
            Ok(_) => {
                proof {
                    done = done + c8;
                    assert(self.events@ =~= pre + done);
                }
            },
        }
        // Vendor "display enhancement B": fixed magic byte values.
        match self.cmd_data2(0xD1, 0x82, 0x20) {
            Err(e) => {
                proof {
                    assert(done + c9 =~= full.subrange(0, 19));
                    lemma_aborted_compose(pre, pre + done, self.events@, done, c9, full);
                }
                return Err(e);
            },
            Ok(_) => {
                proof {
                    done = done + c9;
                    assert(self.events@ =~= pre + done);
                    assert(done =~= full);
                }
            },
        }
        Ok(())
    }

    /// Program the addressing window to the panel's active region and
    /// upload the back buffer, so the first visible frame is defined rather
    /// than power-on garbage.
    fn init_display(&mut self) -> (r: Result<(), TransportError>)
        requires
            old(self).wf(),
        ensures
            final(self).wf(),
            final(self).frame() == old(self).frame(),
            final(self).base_bus() == old(self).base_bus(),
            final(self).base_dc() == old(self).base_dc(),
            final(self).base_res() == old(self).base_res(),
            final(self).res_levels() == old(self).res_levels(),
            r is Ok ==> final(self).events() == old(self).events() + flush_events(
                old(self).frame().back,
            ),
            r is Err ==> aborted(
                old(self).events(),
                final(self).events(),
                flush_events(old(self).frame().back),
            ),
    {
        let ghost pre = self.events@;
        let ghost full = flush_events(self.frames@.back);
        let ghost w1 = col_range_events(0x1C, 0x5B);
        let ghost w2 = row_range_events(0x00, 0x3F);
        let ghost mut done: Seq<BusEvent> = Seq::empty();
        proof {
            assert(0x1Cu8 & 0x7F == 0x1Cu8) by (bit_vector);
            assert(0x5Bu8 & 0x7F == 0x5Bu8) by (bit_vector);
            assert(0x00u8 & 0x7F == 0x00u8) by (bit_vector);
            assert(0x3Fu8 & 0x7F == 0x3Fu8) by (bit_vector);
            assert(full =~= w1 + w2 + seq![
                BusEvent::Cmd(SSD1322_CMD_WRITE_RAM),
                BusEvent::Blk(self.frames@.back),
            ]);
            assert(self.events@ =~= pre + done);
        }
        match self.set_column_range(0x1C, 0x5B) {
            Err(e) => {
                proof {
                    assert(done + w1 =~= full.subrange(0, 3));
                    lemma_aborted_compose(pre, pre + done, self.events@, done, w1, full);
                }
                return Err(e);
            },
            Ok(_) => {
                proof {
                    done = done + w1;
                    assert(self.events@ =~= pre + done);
                }
            },
        }
        match self.set_row_range(0x00, 0x3F) {
            Err(e) => {
                proof {
                    assert(done + w2 =~= full.subrange(0, 6));
                    lemma_aborted_compose(pre, pre + done, self.events@, done, w2, full);
                }
                return Err(e);
            },
            Ok(_) => {
                proof {
                    done = done + w2;
                    assert(self.events@ =~= pre + done);
                }
            },
        }
        match self.write_cmd(SSD1322_CMD_WRITE_RAM) {
            Err(e) => {
                proof {
                    assert(full.take(6) =~= done);
                    assert(self.events@ =~= pre + full.take(6) + seq![BusEvent::Dc(false)]);
                    assert(attempt_level(full[6]) == false);
                    assert(aborted(pre, self.events@, full));
                }
                return Err(e);
            },
            Ok(_) => {
                proof {
                    done = done.push(BusEvent::Cmd(SSD1322_CMD_WRITE_RAM));
                    assert(self.events@ =~= pre + done);
                }
            },
        }
        match self.send_buffer(false) {
            Err(e) => {
                proof {
                    assert(full.take(7) =~= done);
                    assert(self.events@ =~= pre + full.take(7) + seq![BusEvent::Dc(true)]);
                    assert(attempt_level(full[7]) == true);
                    assert(aborted(pre, self.events@, full));
                }
                return Err(e);
            },
            Ok(_) => {
                proof {
                    done = done.push(BusEvent::Blk(self.frames@.back));
                    assert(self.events@ =~= pre + done);
                    assert(done =~= full);
                }
            },
        }
        Ok(())
    }

    /// Initialize the controller: power-on reset with its mandatory delays,
    /// register programming, one upload of the back buffer, display on, and
    /// the 200 ms settle wait. Must complete before any flush.
    ///
    /// On success the bus saw exactly `init_events` of the back buffer; on a
    /// transport failure the call stops at the failed write and surfaces the
    /// error, having performed no further bus writes.
    pub fn init<D: DelayProvider>(&mut self, delay: &mut D) -> (r: Result<(), TransportError>)
        requires
            old(self).wf(),
        ensures
            final(self).wf(),
            final(self).frame() == old(self).frame(),
            final(self).base_bus() == old(self).base_bus(),
            final(self).base_dc() == old(self).base_dc(),
            final(self).base_res() == old(self).base_res(),
            final(self).res_levels() == old(self).res_levels() + seq![true, false, true],
            r is Ok ==> final(self).events() == old(self).events() + init_events(
                old(self).frame().back,
            ),
            r is Err ==> aborted(
                old(self).events(),
                final(self).events(),
                init_events(old(self).frame().back),
            ),
            r is Ok ==> final(delay).elapsed() == old(delay).elapsed() + seq![10u32, 300u32, 200u32],
            r is Err ==> final(delay).elapsed() == old(delay).elapsed() + seq![10u32, 300u32],
    {
        let ghost pre = self.events@;
        let ghost full = init_events(self.frames@.back);
        let ghost p1 = reset_events();
        let ghost p2 = register_events();
        let ghost p3 = flush_events(self.frames@.back);
        let ghost p4 = seq![BusEvent::Cmd(SSD1322_CMD_DISPLAY_ON), BusEvent::Wait(200)];
        let ghost mut done: Seq<BusEvent> = Seq::empty();
        proof {
            assert(full =~= p1 + p2 + p3 + p4);
        }
        self.set_res(true);
        self.reset(delay);
        proof {
            done = p1;
            assert(self.events@ =~= pre + done);
            assert(self.res_levels() =~= old(self).res_levels() + seq![true, false, true]);
            assert(delay.elapsed() =~= old(delay).elapsed() + seq![10u32, 300u32]);
        }
        match self.program_registers() {
            Err(e) => {
                proof {
                    assert(done + p2 =~= full.subrange(0, 24));
                    lemma_aborted_compose(pre, pre + done, self.events@, done, p2, full);
                }
                return Err(e);
            },
            Ok(_) => {
                proof {
                    done = done + p2;
                    assert(self.events@ =~= pre + done);
                }
            },
        }
        match self.init_display() {
            Err(e) => {
                proof {
                    assert(done + p3 =~= full.subrange(0, 32));
                    lemma_aborted_compose(pre, pre + done, self.events@, done, p3, full);
                }
                return Err(e);
            },
            Ok(_) => {
                proof {
                    done = done + p3;
                    assert(self.events@ =~= pre + done);
                }
            },
        }
        match self.display_on(delay) {
            Err(e) => {
                proof {
                    assert(done + p4 =~= full.subrange(0, 34));
                    lemma_aborted_compose(pre, pre + done, self.events@, done, p4, full);
                }
                return Err(e);
            },
            Ok(_) => {
                proof {
                    done = done + p4;
                    assert(self.events@ =~= pre + done);
                    assert(done =~= full);
                    assert(delay.elapsed() =~= old(delay).elapsed() + seq![10u32, 300u32, 200u32]);
                }
            },
        }
        Ok(())
    }

    /// Transmit the frame just drawn: program the addressing window, issue
    /// the write-RAM command, swap the buffers, and send the new front
    /// buffer (the one just drawn) as one contiguous block.
    ///
    /// The swap happens after the window commands and before the transfer,
    /// as the controller protocol requires; a transport failure during the
    /// block transfer therefore leaves the buffers already swapped, while a
    /// failure during the window commands leaves them untouched. The last
    /// two clauses state exactly which happened.
    pub fn flush(&mut self) -> (r: Result<(), TransportError>)
        requires
            old(self).wf(),
        ensures
            final(self).wf(),
            final(self).base_bus() == old(self).base_bus(),
            final(self).base_dc() == old(self).base_dc(),
            final(self).base_res() == old(self).base_res(),
            final(self).res_levels() == old(self).res_levels(),
            r is Ok ==> final(self).events() == old(self).events() + flush_events(
                old(self).frame().back,
            ),
            r is Ok ==> final(self).frame() == swap_spec(old(self).frame()),
            r is Err ==> aborted(
                old(self).events(),
                final(self).events(),
                flush_events(old(self).frame().back),
            ),
            r is Err ==> final(self).events().len() <= old(self).events().len() + 8,
            r is Err ==> (final(self).events().len() == old(self).events().len() + 8
                ==> final(self).frame() == swap_spec(old(self).frame())),
            r is Err ==> (final(self).events().len() < old(self).events().len() + 8
                ==> final(self).frame() == old(self).frame()),
    {
        let ghost pre = self.events@;
        let ghost full = flush_events(self.frames@.back);
        let ghost w1 = col_range_events(0x1C, 0x5B);
        let ghost w2 = row_range_events(0x00, 0x3F);
        let ghost mut done: Seq<BusEvent> = Seq::empty();
        proof {
            assert(0x1Cu8 & 0x7F == 0x1Cu8) by (bit_vector);
            assert(0x5Bu8 & 0x7F == 0x5Bu8) by (bit_vector);
            assert(0x00u8 & 0x7F == 0x00u8) by (bit_vector);
            assert(0x3Fu8 & 0x7F == 0x3Fu8) by (bit_vector);
            assert(full =~= w1 + w2 + seq![
                BusEvent::Cmd(SSD1322_CMD_WRITE_RAM),
                BusEvent::Blk(self.frames@.back),
            ]);
            assert(self.events@ =~= pre + done);
        }
        match self.set_column_range(0x1C, 0x5B) {
            Err(e) => {
                proof {
                    assert(done + w1 =~= full.subrange(0, 3));
                    lemma_aborted_compose(pre, pre + done, self.events@, done, w1, full);
                }
                return Err(e);
            },
            Ok(_) => {
                proof {
                    done = done + w1;
                    assert(self.events@ =~= pre + done);
                }
            },
        }
        match self.set_row_range(0x00, 0x3F) {
            Err(e) => {
                proof {
                    assert(done + w2 =~= full.subrange(0, 6));
                    lemma_aborted_compose(pre, pre + done, self.events@, done, w2, full);
                }
                return Err(e);
            },
            Ok(_) => {
                proof {
                    done = done + w2;
                    assert(self.events@ =~= pre + done);
                }
            },
        }
        match self.write_cmd(SSD1322_CMD_WRITE_RAM) {
            Err(e) => {
                proof {
                    assert(full.take(6) =~= done);
                    assert(self.events@ =~= pre + full.take(6) + seq![BusEvent::Dc(false)]);
                    assert(attempt_level(full[6]) == false);
                    assert(aborted(pre, self.events@, full));
                }
                return Err(e);
            },
            Ok(_) => {
                proof {
                    done = done.push(BusEvent::Cmd(SSD1322_CMD_WRITE_RAM));
                    assert(self.events@ =~= pre + done);
                }
            },
        }
        self.frames.swap();
        match self.send_buffer(true) {
            Err(e) => {
                proof {
                    assert(full.take(7) =~= done);
                    assert(self.events@ =~= pre + full.take(7) + seq![BusEvent::Dc(true)]);
                    assert(attempt_level(full[7]) == true);
                    assert(aborted(pre, self.events@, full));
                }
                return Err(e);
            },
            Ok(_) => {
                proof {
                    done = done.push(BusEvent::Blk(self.frames@.front));
                    assert(self.events@ =~= pre + done);
                    assert(done =~= full);
                }
            },
        }
        Ok(())
    }

    /// Write one pixel of the back buffer; out-of-range coordinates are
    /// silently dropped. Performs no bus traffic.
    pub fn draw_pixel(&mut self, x: i32, y: i32, gray: u8)
        requires
            old(self).wf(),
            gray <= 15,
        ensures
            final(self).wf(),
            final(self).frame() == set_pixel_spec(old(self).frame(), x as int, y as int, gray),
            final(self).events() == old(self).events(),
            final(self).base_bus() == old(self).base_bus(),
            final(self).base_dc() == old(self).base_dc(),
            final(self).base_res() == old(self).base_res(),
            final(self).bus_written() == old(self).bus_written(),
            final(self).dc_levels() == old(self).dc_levels(),
            final(self).res_levels() == old(self).res_levels(),
    {
        self.frames.set_pixel(x, y, gray);
    }

    /// Fill the whole back buffer with one gray level. Performs no bus
    /// traffic.
    pub fn clear(&mut self, gray: u8)
        requires
            old(self).wf(),
            gray <= 15,
        ensures
            final(self).wf(),
            final(self).frame() == clear_spec(old(self).frame(), gray),
            final(self).events() == old(self).events(),
            final(self).base_bus() == old(self).base_bus(),
            final(self).base_dc() == old(self).base_dc(),
            final(self).base_res() == old(self).base_res(),
            final(self).bus_written() == old(self).bus_written(),
            final(self).dc_levels() == old(self).dc_levels(),
            final(self).res_levels() == old(self).res_levels(),
    {
        self.frames.clear(gray);
    }

    /// Write a whole batch of pixels to the back buffer, in order.
    pub fn draw_iter(&mut self, pixels: &Vec<(i32, i32, u8)>)
        requires
            old(self).wf(),
            forall|i: int| 0 <= i < pixels@.len() ==> (#[trigger] pixels@[i]).2 <= 15,
        ensures
            final(self).wf(),
            final(self).frame() == draw_all(old(self).frame(), pixels@),
            final(self).events() == old(self).events(),
            final(self).base_bus() == old(self).base_bus(),
            final(self).base_dc() == old(self).base_dc(),
            final(self).base_res() == old(self).base_res(),
            final(self).bus_written() == old(self).bus_written(),
            final(self).dc_levels() == old(self).dc_levels(),
            final(self).res_levels() == old(self).res_levels(),
    {
        let mut i: usize = 0;
        proof {
            assert(pixels@.skip(0) =~= pixels@);
        }
        while i < pixels.len()
            invariant
                i <= pixels@.len(),
                self.wf(),
                forall|k: int| 0 <= k < pixels@.len() ==> (#[trigger] pixels@[k]).2 <= 15,
                draw_all(self.frame(), pixels@.skip(i as int)) == draw_all(
                    old(self).frame(),
                    pixels@,
                ),
                self.events() == old(self).events(),
                self.base_bus() == old(self).base_bus(),
                self.base_dc() == old(self).base_dc(),
                self.base_res() == old(self).base_res(),
                self.bus_written() == old(self).bus_written(),
                self.dc_levels() == old(self).dc_levels(),
                self.res_levels() == old(self).res_levels(),
            decreases pixels@.len() - i,
        {
            let ghost before = self.frame();
            let (x, y, g) = pixels[i];
            self.draw_pixel(x, y, g);
            proof {
                assert(pixels@.skip(i as int)[0] == pixels@[i as int]);
                assert(pixels@.skip(i as int).drop_first() =~= pixels@.skip(i as int + 1));
                assert(draw_all(before, pixels@.skip(i as int)) == draw_all(
                    self.frame(),
                    pixels@.skip(i as int + 1),
                ));
            }
            i += 1;
        }
        proof {
            assert(pixels@.skip(pixels@.len() as int) =~= Seq::<(i32, i32, u8)>::empty());
        }
    }

    /// The fixed panel dimensions, width then height.
    pub fn size(&self) -> (r: (u32, u32))
        ensures
            r.0 == 128,
            r.1 == 64,
    {
        (128, 64)
    }

    /// Borrow the transport, for inspection after a sequence of operations.
    pub fn transport_ref(&self) -> (r: &T)
        ensures
            r.written() == self.bus_written(),
    {
        &self.transport
    }

    /// Borrow the data/command line.
    pub fn dc_ref(&self) -> (r: &L)
        ensures
            r.levels() == self.dc_levels(),
    {
        &self.dc
    }

    /// Borrow the reset line.
    pub fn res_ref(&self) -> (r: &L)
        ensures
            r.levels() == self.res_levels(),
    {
        &self.res
    }

    /// The bytes last transmitted (the front buffer).
    pub fn front_data(&self) -> (r: &Vec<u8>)
        ensures
            r@ == self.frame().front,
    {
        self.frames.front_data()
    }

    /// The bytes being drawn (the back buffer).
    pub fn back_data(&self) -> (r: &Vec<u8>)
        ensures
            r@ == self.frame().back,
    {
        self.frames.back_data()
    }

    /// What a successful flush physically did: beyond what it had already
    /// seen, the transport received exactly the window command bytes and
    /// then the transmitted buffer, and the data/command line was driven
    /// low for each command byte and high for the data.
    pub proof fn lemma_flush_transmission(d0: Self, d1: Self)
        requires
            d0.wf(),
            d1.wf(),
            d1.base_bus() == d0.base_bus(),
            d1.base_dc() == d0.base_dc(),
            d1.events() == d0.events() + flush_events(d0.frame().back),
        ensures
            d1.bus_written() == d0.bus_written() + (seq![
                0x15u8, 0x1C, 0x5B, 0x75, 0x00, 0x3F, 0x5C,
            ] + d0.frame().back),
            d1.dc_levels() == d0.dc_levels() + seq![
                false, true, true, false, true, true, false, true,
            ],
    {
        d0.lemma_log_pinned();
        d1.lemma_log_pinned();
        lemma_projections_add(d0.events(), flush_events(d0.frame().back));
        lemma_flush_projections(d0.frame().back);
        assert(d1.bus_written() =~= d0.bus_written() + (seq![
            0x15u8, 0x1C, 0x5B, 0x75, 0x00, 0x3F, 0x5C,
        ] + d0.frame().back));
        assert(d1.dc_levels() =~= d0.dc_levels() + seq![
            false, true, true, false, true, true, false, true,
        ]);
    }

    /// What a successful initialization physically did: the transport
    /// received exactly the fixed register byte list, the window bytes, the
    /// back buffer and the display-on command, and the reset line was
    /// driven high, low, high.
    pub proof fn lemma_init_transmission(d0: Self, d1: Self)
        requires
            d0.wf(),
            d1.wf(),
            d1.base_bus() == d0.base_bus(),
            d1.base_res() == d0.base_res(),
            d1.events() == d0.events() + init_events(d0.frame().back),
        ensures
            d1.bus_written() == d0.bus_written() + (seq![
                0xB3u8, 0x91, 0xCA, 0x3F, 0xA1, 0x00, 0xA2, 0x00, 0xA0, 0x16, 0x11, 0xA6, 0xAE,
                0xB4, 0xA0, 0xFD, 0xD1, 0x82, 0x20, 0x15, 0x1C, 0x5B, 0x75, 0x00, 0x3F, 0x5C,
            ] + d0.frame().back + seq![0xAFu8]),
            d1.res_levels() == d0.res_levels() + seq![true, false, true],
    {
        d0.lemma_log_pinned();
        d1.lemma_log_pinned();
        lemma_projections_add(d0.events(), init_events(d0.frame().back));
        lemma_init_projections(d0.frame().back);
        assert(d1.bus_written() =~= d0.bus_written() + (seq![
            0xB3u8, 0x91, 0xCA, 0x3F, 0xA1, 0x00, 0xA2, 0x00, 0xA0, 0x16, 0x11, 0xA6, 0xAE, 0xB4,
            0xA0, 0xFD, 0xD1, 0x82, 0x20, 0x15, 0x1C, 0x5B, 0x75, 0x00, 0x3F, 0x5C,
        ] + d0.frame().back + seq![0xAFu8]));
        assert(d1.res_levels() =~= d0.res_levels() + seq![true, false, true]);
    }
}

/// The window commands project to the documented bytes, each preceded by
/// the matching data/command level, with no reset or delay activity.
pub proof fn lemma_window_projections()
    ensures
        bytes_of(window_events()) == seq![0x15u8, 0x1C, 0x5B, 0x75, 0x00, 0x3F, 0x5C],
        dc_of(window_events()) == seq![false, true, true, false, true, true, false],
        res_of(window_events()) == Seq::<bool>::empty(),
        waits_of(window_events()) == Seq::<u32>::empty(),
{
    reveal_with_fuel(bytes_of, 9);
    reveal_with_fuel(dc_of, 9);
    reveal_with_fuel(res_of, 9);
    reveal_with_fuel(waits_of, 9);
    assert(bytes_of(window_events()) =~= seq![0x15u8, 0x1C, 0x5B, 0x75, 0x00, 0x3F, 0x5C]);
    assert(dc_of(window_events()) =~= seq![false, true, true, false, true, true, false]);
    assert(res_of(window_events()) =~= Seq::<bool>::empty());
    assert(waits_of(window_events()) =~= Seq::<u32>::empty());
}

/// A full flush projects to the window command bytes followed by the
/// buffer itself, sent with the data/command line high.
pub proof fn lemma_flush_projections(buf: Seq<u8>)
    ensures
        bytes_of(flush_events(buf)) == seq![0x15u8, 0x1C, 0x5B, 0x75, 0x00, 0x3F, 0x5C] + buf,
        dc_of(flush_events(buf)) == seq![false, true, true, false, true, true, false, true],
        res_of(flush_events(buf)) == Seq::<bool>::empty(),
        waits_of(flush_events(buf)) == Seq::<u32>::empty(),
{
    lemma_window_projections();
    lemma_projections_push(window_events(), BusEvent::Blk(buf));
    assert(dc_of(flush_events(buf)) =~= seq![false, true, true, false, true, true, false, true]);
    assert(res_of(flush_events(buf)) =~= Seq::<bool>::empty());
    assert(waits_of(flush_events(buf)) =~= Seq::<u32>::empty());
}

/// The reset phase touches only the reset line and the delay source: the
/// line goes low then high with the 10 ms and 300 ms holds, and no byte
/// crosses the bus.
pub proof fn lemma_reset_projections()
    ensures
        bytes_of(reset_events()) == Seq::<u8>::empty(),
        dc_of(reset_events()) == Seq::<bool>::empty(),
        res_of(reset_events()) == seq![true, false, true],
        waits_of(reset_events()) == seq![10u32, 300u32],
{
    reveal_with_fuel(bytes_of, 7);
    reveal_with_fuel(dc_of, 7);
    reveal_with_fuel(res_of, 7);
    reveal_with_fuel(waits_of, 7);
    assert(bytes_of(reset_events()) =~= Seq::<u8>::empty());
    assert(dc_of(reset_events()) =~= Seq::<bool>::empty());
    assert(res_of(reset_events()) =~= seq![true, false, true]);
    assert(waits_of(reset_events()) =~= seq![10u32, 300u32]);
}

/// The register phase projects to the documented byte list, each byte
/// preceded by the matching data/command level.
pub proof fn lemma_register_projections()
    ensures
        bytes_of(register_events()) == seq![
            0xB3u8, 0x91, 0xCA, 0x3F, 0xA1, 0x00, 0xA2, 0x00, 0xA0, 0x16, 0x11, 0xA6, 0xAE, 0xB4,
            0xA0, 0xFD, 0xD1, 0x82, 0x20,
        ],
        dc_of(register_events()) == seq![
            false, true, false, true, false, true, false, true, false, true, true, false, false,
            false, true, true, false, true, true,
        ],
        res_of(register_events()) == Seq::<bool>::empty(),
        waits_of(register_events()) == Seq::<u32>::empty(),
{
    reveal_with_fuel(bytes_of, 21);
    reveal_with_fuel(dc_of, 21);
    reveal_with_fuel(res_of, 21);
    reveal_with_fuel(waits_of, 21);
    assert(bytes_of(register_events()) =~= seq![
        0xB3u8, 0x91, 0xCA, 0x3F, 0xA1, 0x00, 0xA2, 0x00, 0xA0, 0x16, 0x11, 0xA6, 0xAE, 0xB4,
        0xA0, 0xFD, 0xD1, 0x82, 0x20,
    ]);
    assert(dc_of(register_events()) =~= seq![
        false, true, false, true, false, true, false, true, false, true, true, false, false,
        false, true, true, false, true, true,
    ]);
    assert(res_of(register_events()) =~= Seq::<bool>::empty());
    assert(waits_of(register_events()) =~= Seq::<u32>::empty());
}

/// A full initialization projects to the fixed register byte list, then
/// the window bytes and the uploaded buffer, then display-on; the reset
/// line sees high-low-high and the delay source the three mandatory holds,
/// in their documented places.
pub proof fn lemma_init_projections(back: Seq<u8>)
    ensures
        bytes_of(init_events(back)) == seq![
            0xB3u8, 0x91, 0xCA, 0x3F, 0xA1, 0x00, 0xA2, 0x00, 0xA0, 0x16, 0x11, 0xA6, 0xAE, 0xB4,
            0xA0, 0xFD, 0xD1, 0x82, 0x20, 0x15, 0x1C, 0x5B, 0x75, 0x00, 0x3F, 0x5C,
        ] + back + seq![0xAFu8],
        res_of(init_events(back)) == seq![true, false, true],
        waits_of(init_events(back)) == seq![10u32, 300u32, 200u32],
{
    let p1 = reset_events();
    let p2 = register_events();
    let p3 = flush_events(back);
    let p4 = seq![BusEvent::Cmd(SSD1322_CMD_DISPLAY_ON), BusEvent::Wait(200)];
    lemma_reset_projections();
    lemma_register_projections();
    lemma_flush_projections(back);
    reveal_with_fuel(bytes_of, 4);
    reveal_with_fuel(res_of, 4);
    reveal_with_fuel(waits_of, 4);
    assert(bytes_of(p4) =~= seq![0xAFu8]);
    assert(res_of(p4) =~= Seq::<bool>::empty());
    assert(waits_of(p4) =~= seq![200u32]);
    lemma_projections_add(p1, p2);
    lemma_projections_add(p1 + p2, p3);
    lemma_projections_add(p1 + p2 + p3, p4);
    assert(init_events(back) == p1 + p2 + p3 + p4);
    assert(bytes_of(init_events(back)) =~= seq![
        0xB3u8, 0x91, 0xCA, 0x3F, 0xA1, 0x00, 0xA2, 0x00, 0xA0, 0x16, 0x11, 0xA6, 0xAE, 0xB4,
        0xA0, 0xFD, 0xD1, 0x82, 0x20, 0x15, 0x1C, 0x5B, 0x75, 0x00, 0x3F, 0x5C,
    ] + back + seq![0xAFu8]);
    assert(res_of(init_events(back)) =~= seq![true, false, true]);
    assert(waits_of(init_events(back)) =~= seq![10u32, 300u32, 200u32]);
}

/// The effect of a batch of pixel writes, first to last.
pub open spec fn draw_all(m: FrameModel, ps: Seq<(i32, i32, u8)>) -> FrameModel
    decreases ps.len(),
{
    if ps.len() == 0 {
        m
    } else {
        draw_all(set_pixel_spec(m, ps[0].0 as int, ps[0].1 as int, ps[0].2), ps.drop_first())
    }
}

} // verus!
