//! Text rendering of fixed-point coordinates for the list rows: one
//! decimal place, rounded half away from zero, with padding helpers
//! for the fixed-width monospace layout.

use vstd::prelude::*;
use crate::point::{coord_ok, Neuron, NeuronView};

verus! {

/// The decimal digits of `n`, most significant first.
pub open spec fn spec_digits(n: nat) -> Seq<u8>
    decreases n,
{
    if n < 10 {
        seq![(48 + n) as u8]
    } else {
        spec_digits(n / 10).push((48 + n % 10) as u8)
    }
}

/// `v` milliunits rounded half away from zero to tenths of a unit.
pub open spec fn spec_deci(v: int) -> int {
    if v >= 0 {
        (v + 50) / 100
    } else {
        -((-v + 50) / 100)
    }
}

/// The one-decimal rendering of `v` milliunits: optional minus sign,
/// the integer digits, a dot, and the tenths digit.
pub open spec fn spec_coord_text(v: int) -> Seq<u8> {
    let m = if spec_deci(v) >= 0 {
        spec_deci(v)
    } else {
        -spec_deci(v)
    };
    let body = spec_digits((m / 10) as nat) + seq![46u8] + seq![(48 + m % 10) as u8];
    if v < 0 {
        seq![45u8] + body
    } else {
        body
    }
}

/// `s` padded on the left with spaces to at least `w` bytes.
pub open spec fn spec_pad_left(s: Seq<u8>, w: int) -> Seq<u8>
    decreases w - s.len(),
{
    if s.len() >= w {
        s
    } else {
        spec_pad_left(seq![32u8] + s, w)
    }
}

/// `s` padded on the right with spaces to at least `w` bytes.
pub open spec fn spec_pad_right(s: Seq<u8>, w: int) -> Seq<u8>
    decreases w - s.len(),
{
    if s.len() >= w {
        s
    } else {
        spec_pad_right(s + seq![32u8], w)
    }
}

/// Append the decimal digits of `n`, most significant first.
fn push_digits(out: &mut Vec<u8>, n: u64)
    ensures
        final(out)@ == old(out)@ + spec_digits(n as nat),
    decreases n,
{
    if n < 10 {
        out.push(48 + (n as u8));
        assert(out@ =~= old(out)@ + spec_digits(n as nat));
    } else {
        push_digits(out, n / 10);
        let d = (n % 10) as u8;
        out.push(48 + d);
        assert(out@ =~= old(out)@ + spec_digits(n as nat));
    }
}

/// Render `v` milliunits with one decimal place, rounded half away
/// from zero (`1500` becomes `1.5`, `-20` becomes `-0.0`).
pub fn format_coord_milli(v: i64) -> (res: Vec<u8>)
    requires
        coord_ok(v as int),
    ensures
        res@ == spec_coord_text(v as int),
{
    let mut out: Vec<u8> = Vec::new();
    let m_abs: u64 = if v < 0 {
        (-v) as u64
    } else {
        v as u64
    };
    let d: u64 = (m_abs + 50) / 100;
    if v < 0 {
        out.push(45);
    }
    push_digits(&mut out, d / 10);
    out.push(46);
    out.push(48 + ((d % 10) as u8));
    proof {
        let m = if spec_deci(v as int) >= 0 {
            spec_deci(v as int)
        } else {
            -spec_deci(v as int)
        };
        assert(m == d as int);
        assert(out@ =~= spec_coord_text(v as int));
    }
    out
}

/// Pad on the left with spaces to at least `w` bytes (right-aligned
/// fixed-width column).
pub fn pad_left(s: &mut Vec<u8>, w: usize)
    ensures
        final(s)@ == spec_pad_left(old(s)@, w as int),
{
    let ghost orig = s@;
    while s.len() < w
        invariant
            spec_pad_left(orig, w as int) == spec_pad_left(s@, w as int),
        decreases w - s.len(),
    {
        let ghost before = s@;
        s.insert(0, 32);
        assert(s@ =~= seq![32u8] + before);
    }
}

/// Pad on the right with spaces to at least `w` bytes (left-aligned
/// fixed-width column).
pub fn pad_right(s: &mut Vec<u8>, w: usize)
    ensures
        final(s)@ == spec_pad_right(old(s)@, w as int),
{
    let ghost orig = s@;
    while s.len() < w
        invariant
            spec_pad_right(orig, w as int) == spec_pad_right(s@, w as int),
        decreases w - s.len(),
    {
        let ghost before = s@;
        s.push(32);
        assert(s@ =~= before + seq![32u8]);
    }
}

/// The text of one list row: the name padded to the 5-character
/// column, then the three coordinates, each with one decimal place and
/// right-aligned to 5 characters, in parentheses.
pub open spec fn spec_row_text(nv: NeuronView) -> Seq<u8> {
    spec_pad_right(nv.name, 5) + seq![32u8, 40u8] + spec_pad_left(spec_coord_text(nv.x), 5)
        + seq![44u8, 32u8] + spec_pad_left(spec_coord_text(nv.y), 5) + seq![44u8, 32u8]
        + spec_pad_left(spec_coord_text(nv.z), 5) + seq![41u8]
}

/// Render one list row: the padded name and the three fixed-width,
/// one-decimal coordinates.
pub fn row_text(n: &Neuron) -> (res: Vec<u8>)
    requires
        n.wf(),
    ensures
        res@ == spec_row_text(n@),
{
    let mut out = n.duplicate().name;
    pad_right(&mut out, 5);
    out.push(32);
    out.push(40);
    let ghost head = out@;
    assert(head =~= spec_pad_right(n@.name, 5) + seq![32u8, 40u8]);
    let mut tx = format_coord_milli(n.x);
    pad_left(&mut tx, 5);
    out.append(&mut tx);
    out.push(44);
    out.push(32);
    let mut ty = format_coord_milli(n.y);
    pad_left(&mut ty, 5);
    out.append(&mut ty);
    out.push(44);
    out.push(32);
    let mut tz = format_coord_milli(n.z);
    pad_left(&mut tz, 5);
    out.append(&mut tz);
    out.push(41);
    assert(out@ =~= spec_row_text(n@));
    out
}

} // verus!
