use vstd::prelude::*;

use crate::parser::{le_u32, u32_at};

verus! {

/// The bit set of the header's `flags` field.
#[derive(Debug, Clone, Copy)]
pub struct Flag {
    bits: u32,
}

impl View for Flag {
    type V = u32;

    closed spec fn view(&self) -> u32 {
        self.bits
    }
}

impl Flag {
    /// The frames are stored as icon containers.
    pub const ICON: u32 = 0x01;

    /// The animation plays its frames in a custom order (a `seq ` chunk).
    pub const SEQUENCE: u32 = 0x02;

    pub fn from_bits(bits: u32) -> (r: Flag)
        ensures
            r@ == bits,
    {
        Flag { bits }
    }

    pub fn bits(&self) -> (r: u32)
        ensures
            r == self@,
    {
        self.bits
    }

    /// Whether every bit of `bits` is set.
    pub fn contains(&self, bits: u32) -> (r: bool)
        ensures
            r == (self@ & bits == bits),
    {
        self.bits & bits == bits
    }
}

/// What the 36 bytes of a header record hold.
pub struct HeaderModel {
    pub size: u32,
    pub frames: u32,
    pub steps: u32,
    pub x: u32,
    pub y: u32,
    pub bit_count: u32,
    pub planes: u32,
    pub jif_rate: u32,
    pub flags: u32,
}

/// The header record decoded field by field, little-endian, from the 36 bytes at `i`.
pub open spec fn header_model(b: Seq<u8>, i: int) -> HeaderModel {
    HeaderModel {
        size: le_u32(b, i),
        frames: le_u32(b, i + 4),
        steps: le_u32(b, i + 8),
        x: le_u32(b, i + 12),
        y: le_u32(b, i + 16),
        bit_count: le_u32(b, i + 20),
        planes: le_u32(b, i + 24),
        jif_rate: le_u32(b, i + 28),
        flags: le_u32(b, i + 32),
    }
}

/// The `anih` chunk: global parameters of the animation.
#[derive(Debug, Clone, Copy)]
pub struct Header {
    size: u32,
    frames: u32,
    steps: u32,
    x: u32,
    y: u32,
    bit_count: u32,
    planes: u32,
    jif_rate: u32,
    flags: Flag,
}

impl View for Header {
    type V = HeaderModel;

    closed spec fn view(&self) -> HeaderModel {
        HeaderModel {
            size: self.size,
            frames: self.frames,
            steps: self.steps,
            x: self.x,
            y: self.y,
            bit_count: self.bit_count,
            planes: self.planes,
            jif_rate: self.jif_rate,
            flags: self.flags.bits,
        }
    }
}

impl Header {
    /// Decodes the 36-byte record that starts at offset `i` of `b`.
    pub fn from_record(b: &[u8], i: usize) -> (r: Header)
        requires
            i + 36 <= b@.len(),
        ensures
            r@ == header_model(b@, i as int),
    {
        proof {
            assert(b@.len() == b.len());
        }
        Header {
            size: u32_at(b, i),
            frames: u32_at(b, i + 4),
            steps: u32_at(b, i + 8),
            x: u32_at(b, i + 12),
            y: u32_at(b, i + 16),
            bit_count: u32_at(b, i + 20),
            planes: u32_at(b, i + 24),
            jif_rate: u32_at(b, i + 28),
            flags: Flag { bits: u32_at(b, i + 32) },
        }
    }

    /// The length of the header record (36 in every decoded header).
    pub fn size(&self) -> (r: u32)
        ensures
            r == self@.size,
    {
        self.size
    }

    /// The number of frames in the `fram` list.
    pub fn frames(&self) -> (r: u32)
        ensures
            r == self@.frames,
    {
        self.frames
    }

    /// The number of steps in one loop of the animation.
    pub fn steps(&self) -> (r: u32)
        ensures
            r == self@.steps,
    {
        self.steps
    }

    /// The default display rate, in jiffies (1/60 s).
    pub fn jif_rate(&self) -> (r: u32)
        ensures
            r == self@.jif_rate,
    {
        self.jif_rate
    }

    pub fn flags(&self) -> (r: &Flag)
        ensures
            r@ == self@.flags,
    {
        &self.flags
    }
}

} // verus!
