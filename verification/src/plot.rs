//! The projection plot engine: zoom-adaptive marker sizing and marker
//! coloring for the primary X-Y projection.  The same rules are reused
//! by the auxiliary projections.

use vstd::prelude::*;
use crate::point::{spec_rgb8, Neuron, NeuronView};

verus! {

/// Marker radius for a visible horizontal span, in milli display
/// units: `clamp(-0.01 * span + 6, 1, 6)` carried out on the
/// fixed-point representation.  Zoomed in (small span) gives large
/// markers, zoomed out gives small ones.
pub open spec fn spec_radius_milli(span: int) -> int {
    let raw = 6000 - span / 100;
    if raw < 1000 {
        1000
    } else if raw > 6000 {
        6000
    } else {
        raw
    }
}

/// The marker radius for the current visible horizontal span.
pub fn marker_radius_milli(span: i64) -> (res: i64)
    requires
        span >= 0,
    ensures
        res == spec_radius_milli(span as int),
        1000 <= res <= 6000,
{
    let d = (span as u64) / 100;
    if d >= 5000 {
        1000
    } else {
        6000 - (d as i64)
    }
}

/// The marker color of a record: its 8-bit color, except pure black,
/// which is rendered white under a dark theme only.
pub open spec fn spec_marker_rgb(nv: NeuronView, dark: bool) -> (int, int, int) {
    if spec_rgb8(nv.r) == 0 && spec_rgb8(nv.g) == 0 && spec_rgb8(nv.b) == 0 && dark {
        (255, 255, 255)
    } else {
        (spec_rgb8(nv.r), spec_rgb8(nv.g), spec_rgb8(nv.b))
    }
}

/// A record whose 8-bit color is pure black never gets a black marker
/// under a dark theme: it is drawn pure white, whatever the filter or
/// hemisphere state chose the point.  (Under a light theme the marker
/// keeps its data color, black on a light canvas.)
pub proof fn lemma_black_marker_shows_white_on_dark(nv: NeuronView)
    requires
        spec_rgb8(nv.r) == 0,
        spec_rgb8(nv.g) == 0,
        spec_rgb8(nv.b) == 0,
    ensures
        spec_marker_rgb(nv, true) == (255int, 255int, 255int),
{
}

/// A record behind the `z = 0` plane is drawn dimmed, as a depth cue.
pub open spec fn spec_marker_dimmed(nv: NeuronView) -> bool {
    nv.z < 0
}

/// The marker style of one record: its color (pure black shown white
/// under a dark theme), and whether the marker is dimmed for depth.
pub fn marker_style(n: &Neuron, dark: bool) -> (res: ([u8; 3], bool))
    ensures
        (res.0[0] as int, res.0[1] as int, res.0[2] as int) == spec_marker_rgb(n@, dark),
        res.1 == spec_marker_dimmed(n@),
{
    let rgb = n.rgb();
    let color: [u8; 3] = if rgb[0] == 0 && rgb[1] == 0 && rgb[2] == 0 && dark {
        [255, 255, 255]
    } else {
        rgb
    };
    (color, n.z < 0)
}

} // verus!
