//! The frame store: two equally sized pixel buffers packed at 4 bits per
//! pixel, of which exactly one is "front" (last transmitted) and one is
//! "back" (the mutable drawing target).

use vstd::prelude::*;

verus! {

/// Panel width in pixels.
pub const WIDTH: usize = 128;

/// Panel height in pixels.
pub const HEIGHT: usize = 64;

/// Bytes per buffer: one byte per pixel, the 4-bit sample duplicated into
/// both nibbles.
pub const BUFFER_SIZE: usize = 128 * 64;

/// A stored byte replicates a 4-bit gray sample into both nibbles.
pub open spec fn dup(g: u8) -> u8 {
    (g << 4) | g
}

/// A byte is in stored form: high nibble equals low nibble.
pub open spec fn dup_form(b: u8) -> bool {
    (b >> 4) == (b & 0x0F)
}

/// The mathematical state of the frame store: the bytes on screen (front)
/// and the bytes being drawn (back).
pub ghost struct FrameModel {
    pub front: Seq<u8>,
    pub back: Seq<u8>,
}

/// Both buffers hold exactly one byte per pixel, each in stored form.
pub open spec fn frame_inv(m: FrameModel) -> bool {
    &&& m.front.len() == BUFFER_SIZE
    &&& m.back.len() == BUFFER_SIZE
    &&& forall|i: int| 0 <= i < BUFFER_SIZE ==> dup_form(#[trigger] m.front[i])
    &&& forall|i: int| 0 <= i < BUFFER_SIZE ==> dup_form(#[trigger] m.back[i])
}

/// An all-zero buffer, the state of both buffers at construction.
pub open spec fn blank() -> Seq<u8> {
    Seq::new(BUFFER_SIZE as nat, |i: int| 0u8)
}

/// Whether (x, y) addresses a pixel of the panel.
pub open spec fn in_bounds(x: int, y: int) -> bool {
    0 <= x < WIDTH && 0 <= y < HEIGHT
}

/// What a pixel write does to the frame store: in bounds, the back buffer
/// byte at `y * WIDTH + x` becomes the doubled sample; out of bounds, the
/// state is untouched.
pub open spec fn set_pixel_spec(m: FrameModel, x: int, y: int, g: u8) -> FrameModel {
    if in_bounds(x, y) {
        FrameModel { front: m.front, back: m.back.update(y * WIDTH + x, dup(g)) }
    } else {
        m
    }
}

/// What a clear does: every back-buffer byte becomes the doubled sample;
/// the front buffer is untouched.
pub open spec fn clear_spec(m: FrameModel, g: u8) -> FrameModel {
    FrameModel { front: m.front, back: Seq::new(BUFFER_SIZE as nat, |i: int| dup(g)) }
}

/// What a buffer swap does: front and back exchange roles, contents intact.
pub open spec fn swap_spec(m: FrameModel) -> FrameModel {
    FrameModel { front: m.back, back: m.front }
}

/// Clearing is idempotent: a second clear to the same gray level leaves
/// exactly the state the first one produced.
pub proof fn lemma_clear_idempotent(m: FrameModel, g: u8)
    ensures
        clear_spec(clear_spec(m, g), g) == clear_spec(m, g),
{
}

/// A doubled 4-bit sample is in stored form.
pub proof fn lemma_dup_form(g: u8)
    requires
        g <= 15,
    ensures
        dup_form(dup(g)),
{
    assert(g <= 15 ==> ((g << 4) | g) >> 4 == (((g << 4) | g) & 0x0F)) by (bit_vector);
}

/// The two pixel buffers and the flag saying which is front.
pub struct FrameStore {
    buf0: Vec<u8>,
    buf1: Vec<u8>,
    front: usize,
}

impl FrameStore {
    /// The abstract state: which bytes are front and which are back.
    pub closed spec fn view(&self) -> FrameModel {
        FrameModel {
            front: if self.front == 0 { self.buf0@ } else { self.buf1@ },
            back: if self.front == 0 { self.buf1@ } else { self.buf0@ },
        }
    }

    /// Well-formedness: the front flag is a buffer index and both buffers
    /// satisfy the model invariant.
    pub closed spec fn wf(&self) -> bool {
        &&& self.front <= 1
        &&& frame_inv(self.view())
    }

    /// A well-formed store satisfies the public model invariant.
    pub proof fn lemma_wf_inv(&self)
        requires
            self.wf(),
        ensures
            frame_inv(self.view()),
    {
    }

    /// Two zero-filled buffers; buffer 0 starts as front.
    pub fn new() -> (s: Self)
        ensures
            s.wf(),
            s@.front == blank(),
            s@.back == blank(),
    {
        let s = FrameStore { buf0: filled(0), buf1: filled(0), front: 0 };
        proof {
            assert(0u8 >> 4 == 0u8 & 0x0F) by (bit_vector);
            assert(s@.front =~= blank());
            assert(s@.back =~= blank());
        }
        s
    }

    /// Write one pixel of the back buffer; out-of-range coordinates are
    /// dropped without touching anything.
    pub fn set_pixel(&mut self, x: i32, y: i32, gray: u8)
        requires
            old(self).wf(),
            gray <= 15,
        ensures
            final(self).wf(),
            final(self)@ == set_pixel_spec(old(self)@, x as int, y as int, gray),
    {
        if 0 <= x && x < WIDTH as i32 && 0 <= y && y < HEIGHT as i32 {
            let idx: usize = (y as usize) * WIDTH + (x as usize);
            let b: u8 = (gray << 4) | gray;
            proof {
                lemma_dup_form(gray);
            }
            if self.front == 0 {
                self.buf1[idx] = b;
            } else {
                self.buf0[idx] = b;
            }
        }
    }

    /// Fill the whole back buffer with one gray level.
    pub fn clear(&mut self, gray: u8)
        requires
            old(self).wf(),
            gray <= 15,
        ensures
            final(self).wf(),
            final(self)@ == clear_spec(old(self)@, gray),
    {
        let b: u8 = (gray << 4) | gray;
        proof {
            lemma_dup_form(gray);
        }
        if self.front == 0 {
            fill(&mut self.buf1, b);
        } else {
            fill(&mut self.buf0, b);
        }
        proof {
            assert(self@.back =~= clear_spec(old(self)@, gray).back);
        }
    }

    /// Exchange the roles of the two buffers.
    pub fn swap(&mut self)
        requires
            old(self).wf(),
        ensures
            final(self).wf(),
            final(self)@ == swap_spec(old(self)@),
    {
        self.front = 1 - self.front;
    }

    /// The bytes last transmitted.
    pub fn front_data(&self) -> (r: &Vec<u8>)
        ensures
            r@ == self@.front,
    {
        if self.front == 0 {
            &self.buf0
        } else {
            &self.buf1
        }
    }

    /// The bytes being drawn.
    pub fn back_data(&self) -> (r: &Vec<u8>)
        ensures
            r@ == self@.back,
    {
        if self.front == 0 {
            &self.buf1
        } else {
            &self.buf0
        }
    }
}

/// A fresh buffer-sized vector holding `b` everywhere.
fn filled(b: u8) -> (v: Vec<u8>)
    ensures
        v@ == Seq::new(BUFFER_SIZE as nat, |i: int| b),
{
    let mut v: Vec<u8> = Vec::new();
    while v.len() < BUFFER_SIZE
        invariant
            v@.len() <= BUFFER_SIZE,
            forall|i: int| 0 <= i < v@.len() ==> v@[i] == b,
        decreases BUFFER_SIZE - v@.len(),
    {
        v.push(b);
    }
    proof {
        assert(v@ =~= Seq::new(BUFFER_SIZE as nat, |i: int| b));
    }
    v
}

/// Overwrite every entry of `v` with `b`, keeping its length.
fn fill(v: &mut Vec<u8>, b: u8)
    ensures
        final(v)@ == Seq::new(old(v)@.len(), |i: int| b),
{
    let n = v.len();
    let mut i: usize = 0;
    while i < n
        invariant
            n == v@.len(),
            i <= n,
            forall|j: int| 0 <= j < i ==> v@[j] == b,
        decreases n - i,
    {
        v[i] = b;
        i += 1;
    }
    proof {
        assert(v@ =~= Seq::new(old(v)@.len(), |i: int| b));
    }
}

} // verus!
