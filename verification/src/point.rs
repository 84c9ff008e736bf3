//! The point record: a named 3D position with an RGB color.
//!
//! Positions are fixed-point milliunits (`1500` stands for 1.5 spatial
//! units).  Color channels are fixed-point fractions of `COLOR_SCALE`
//! (`10000` stands for a full channel, i.e. 1.0).

use vstd::prelude::*;

verus! {

/// Full channel value: a channel of `COLOR_SCALE` stands for 1.0.
pub const COLOR_SCALE: u32 = 10000;

/// Largest coordinate magnitude the viewer accepts, in milliunits.
/// Keeps squared distances and scaled offsets inside machine integers.
pub const MAX_COORD: i64 = 1000000000000;

/// A named, colored 3D point, loaded once and never mutated.
pub struct Neuron {
    /// Unique key, as the bytes of the point's name.
    pub name: Vec<u8>,
    /// Position in milliunits.
    pub x: i64,
    pub y: i64,
    pub z: i64,
    /// Color channels as fractions of `COLOR_SCALE`.
    pub r: u32,
    pub g: u32,
    pub b: u32,
}

/// Mathematical image of a `Neuron`.
pub struct NeuronView {
    pub name: Seq<u8>,
    pub x: int,
    pub y: int,
    pub z: int,
    pub r: int,
    pub g: int,
    pub b: int,
}

impl View for Neuron {
    type V = NeuronView;

    open spec fn view(&self) -> NeuronView {
        NeuronView {
            name: self.name@,
            x: self.x as int,
            y: self.y as int,
            z: self.z as int,
            r: self.r as int,
            g: self.g as int,
            b: self.b as int,
        }
    }
}

/// A coordinate the viewer accepts.
pub open spec fn coord_ok(c: int) -> bool {
    -(MAX_COORD as int) <= c <= MAX_COORD as int
}

/// A well-formed record: bounded position, channels at most full.
pub open spec fn neuron_wf(nv: NeuronView) -> bool {
    &&& coord_ok(nv.x)
    &&& coord_ok(nv.y)
    &&& coord_ok(nv.z)
    &&& 0 <= nv.r <= COLOR_SCALE as int
    &&& 0 <= nv.g <= COLOR_SCALE as int
    &&& 0 <= nv.b <= COLOR_SCALE as int
}

/// The derived 8-bit value of one channel: `round(clamp(c, 0, 1) * 255)`
/// carried out on the fixed-point representation.
pub open spec fn spec_rgb8(c: int) -> int {
    (spec_min_int(c, COLOR_SCALE as int) * 255 + 5000) / (COLOR_SCALE as int)
}

pub open spec fn spec_min_int(a: int, b: int) -> int {
    if a <= b {
        a
    } else {
        b
    }
}

/// Luminance of a record's color, scaled by 10^8: the fixed-point image
/// of `0.2126 * r + 0.7152 * g + 0.0722 * b`.
pub open spec fn spec_luminance(nv: NeuronView) -> int {
    2126 * nv.r + 7152 * nv.g + 722 * nv.b
}

impl Neuron {
    /// The record is well formed.
    pub open spec fn wf(&self) -> bool {
        neuron_wf(self@)
    }

    /// The derived 8-bit RGB triple of this record's color.
    pub fn rgb(&self) -> (res: [u8; 3])
        ensures
            res[0] == spec_rgb8(self@.r),
            res[1] == spec_rgb8(self@.g),
            res[2] == spec_rgb8(self@.b),
    {
        [channel8(self.r), channel8(self.g), channel8(self.b)]
    }

    /// Luminance of this record's color, scaled by 10^8.
    pub fn luminance(&self) -> (res: u64)
        requires
            self.wf(),
        ensures
            res == spec_luminance(self@),
    {
        2126u64 * (self.r as u64) + 7152u64 * (self.g as u64) + 722u64 * (self.b as u64)
    }

    /// A fresh record with the same fields.
    pub fn duplicate(&self) -> (res: Neuron)
        ensures
            res@ == self@,
    {
        let name = clone_bytes(&self.name);
        let res = Neuron {
            name,
            x: self.x,
            y: self.y,
            z: self.z,
            r: self.r,
            g: self.g,
            b: self.b,
        };
        assert(res@.name =~= self@.name);
        res
    }
}

/// One channel's derived 8-bit value.
fn channel8(c: u32) -> (res: u8)
    ensures
        res == spec_rgb8(c as int),
{
    let clamped: u32 = if c > COLOR_SCALE {
        COLOR_SCALE
    } else {
        c
    };
    ((clamped * 255 + 5000) / COLOR_SCALE) as u8
}

/// An owned copy of a byte string.
fn clone_bytes(v: &Vec<u8>) -> (res: Vec<u8>)
    ensures
        res@ == v@,
{
    let res = v.clone();
    assert(res@ =~= v@);
    res
}

} // verus!
