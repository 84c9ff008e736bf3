//! The cross-view linking engine: from the primary view's hover
//! position and horizontal bounds, compute what the two auxiliary
//! orthogonal projections draw — which records pass the slab around
//! the cursor, where their markers go, and which get the proximity
//! highlight (reference lines, outline marker and label).

use vstd::prelude::*;
use crate::point::{coord_ok, neuron_wf, Neuron, NeuronView};
use crate::store::views_of;

verus! {

/// Half-thickness of the slab along the hidden axis, in milliunits
/// (1.5 spatial units).
pub const SLAB_MILLI: i64 = 1500;

/// Squared highlight distance, in squared milliunits (0.35 spatial
/// units, squared).
pub const HIGHLIGHT_DIST2_MILLI: i64 = 122500;

/// The transient data-space position under the pointer in the primary
/// view, in milliunits; lives for exactly one redraw.
#[derive(Clone, Copy, PartialEq, Eq, Structural, Debug)]
pub struct HoverPos {
    pub x: i64,
    pub y: i64,
}

/// A hover position the viewer accepts.
pub open spec fn hover_ok(h: HoverPos) -> bool {
    coord_ok(h.x as int) && coord_ok(h.y as int)
}

/// A record lies within the highlight radius of the hover position:
/// Euclidean distance on the first two spatial components is below
/// 0.35 units.
pub open spec fn spec_highlighted(nv: NeuronView, h: HoverPos) -> bool {
    (nv.x - h.x) * (nv.x - h.x) + (nv.y - h.y) * (nv.y - h.y) < HIGHLIGHT_DIST2_MILLI as int
}

/// Whether the record's marker in an auxiliary view gets the
/// proximity highlight for this hover position.
pub fn is_highlighted(n: &Neuron, h: HoverPos) -> (res: bool)
    requires
        n.wf(),
        hover_ok(h),
    ensures
        res == spec_highlighted(n@, h),
{
    let dx: i128 = (n.x as i128) - (h.x as i128);
    let dy: i128 = (n.y as i128) - (h.y as i128);
    proof {
        assert(dx * dx <= 4000000000000000000000000 && dx * dx >= 0) by (nonlinear_arith)
            requires
                -2000000000000 <= dx <= 2000000000000,
        ;
        assert(dy * dy <= 4000000000000000000000000 && dy * dy >= 0) by (nonlinear_arith)
            requires
                -2000000000000 <= dy <= 2000000000000,
        ;
    }
    dx * dx + dy * dy < (HIGHLIGHT_DIST2_MILLI as i128)
}

/// The anterior projection's slab: with a hover present, only records
/// whose first spatial component lies within the slab of the hovered
/// first component; without one, every record.
pub open spec fn slab_pass_a(hover: Option<HoverPos>, nv: NeuronView) -> bool {
    match hover {
        Option::None => true,
        Option::Some(h) => h.x - SLAB_MILLI as int <= nv.x <= h.x + SLAB_MILLI as int,
    }
}

/// The dorsal projection's slab: with a hover present, within the slab
/// of the hovered second component and within the primary view's
/// horizontal bounds; without one, no restriction applies and every
/// record draws.
pub open spec fn slab_pass_b(
    hover: Option<HoverPos>,
    xmin: int,
    xmax: int,
    nv: NeuronView,
) -> bool {
    match hover {
        Option::None => true,
        Option::Some(h) => {
            &&& xmin <= nv.x <= xmax
            &&& h.y - SLAB_MILLI as int <= nv.y <= h.y + SLAB_MILLI as int
        },
    }
}

/// One marker of an auxiliary projection: which record it stands for,
/// where it is drawn in that projection (milliunits), and whether it
/// carries the proximity highlight.
#[derive(Clone, Copy, PartialEq, Eq, Structural, Debug)]
pub struct AuxMarker {
    pub index: usize,
    pub px: i64,
    pub py: i64,
    pub highlighted: bool,
}

/// Some marker of the list stands for record `i`.
pub open spec fn has_index(ms: Seq<AuxMarker>, i: int) -> bool {
    exists|k: int| 0 <= k < ms.len() && (#[trigger] ms[k]).index == i
}

/// The markers of the anterior auxiliary projection (axes: third
/// spatial component across, second up).  Exactly the slab-passing
/// records are drawn, in store order; with a hover present, each
/// marker within the highlight distance is flagged.  The caller draws
/// the horizontal reference line at the hovered second component when
/// a hover is present.
pub fn anterior_view(data: &Vec<Neuron>, hover: Option<HoverPos>) -> (res: Vec<AuxMarker>)
    requires
        forall|i: int| 0 <= i < data@.len() ==> neuron_wf(#[trigger] views_of(data@)[i]),
        match hover {
            Option::None => true,
            Option::Some(h) => hover_ok(h),
        },
    ensures
        forall|k1: int, k2: int|
            0 <= k1 < k2 < res@.len() ==> (#[trigger] res@[k1]).index < (#[trigger] res@[k2]).index,
        forall|k: int|
            0 <= k < res@.len() ==> {
                let m = #[trigger] res@[k];
                &&& m.index < data@.len()
                &&& slab_pass_a(hover, views_of(data@)[m.index as int])
                &&& m.px == views_of(data@)[m.index as int].z
                &&& m.py == views_of(data@)[m.index as int].y
                &&& m.highlighted == match hover {
                    Option::None => false,
                    Option::Some(h) => spec_highlighted(views_of(data@)[m.index as int], h),
                }
            },
        forall|i: int|
            0 <= i < data@.len() && slab_pass_a(hover, #[trigger] views_of(data@)[i])
                ==> has_index(res@, i),
{
    let mut res: Vec<AuxMarker> = Vec::new();
    let mut i: usize = 0;
    while i < data.len()
        invariant
            0 <= i <= data@.len(),
            forall|i0: int| 0 <= i0 < data@.len() ==> neuron_wf(#[trigger] views_of(data@)[i0]),
            match hover {
                Option::None => true,
                Option::Some(h) => hover_ok(h),
            },
            forall|k: int| 0 <= k < res@.len() ==> (#[trigger] res@[k]).index < i,
            forall|k1: int, k2: int|
                0 <= k1 < k2 < res@.len() ==> (#[trigger] res@[k1]).index < (
                #[trigger] res@[k2]).index,
            forall|k: int|
                0 <= k < res@.len() ==> {
                    let m = #[trigger] res@[k];
                    &&& m.index < data@.len()
                    &&& slab_pass_a(hover, views_of(data@)[m.index as int])
                    &&& m.px == views_of(data@)[m.index as int].z
                    &&& m.py == views_of(data@)[m.index as int].y
                    &&& m.highlighted == match hover {
                        Option::None => false,
                        Option::Some(h) => spec_highlighted(views_of(data@)[m.index as int], h),
                    }
                },
            forall|i0: int|
                0 <= i0 < i && slab_pass_a(hover, #[trigger] views_of(data@)[i0]) ==> has_index(
                    res@,
                    i0,
                ),
        decreases data@.len() - i,
    {
        assert(views_of(data@)[i as int] == data@[i as int]@);
        let passes = match hover {
            Option::None => true,
            Option::Some(h) => {
                let lo = h.x - SLAB_MILLI;
                let hi = h.x + SLAB_MILLI;
                data[i].x >= lo && data[i].x <= hi
            },
        };
        if passes {
            let highlighted = match hover {
                Option::None => false,
                Option::Some(h) => is_highlighted(&data[i], h),
            };
            let ghost old_res = res@;
            res.push(
                AuxMarker { index: i, px: data[i].z, py: data[i].y, highlighted },
            );
            assert forall|i0: int|
                0 <= i0 < i + 1 && slab_pass_a(hover, #[trigger] views_of(data@)[i0])
                    implies has_index(res@, i0) by {
                if i0 < i {
                    assert(has_index(old_res, i0));
                    let k = choose|k: int| 0 <= k < old_res.len() && (#[trigger] old_res[k]).index
                        == i0;
                    assert(res@[k].index == i0);
                } else {
                    assert(res@[old_res.len() as int].index == i0);
                }
            }
        }
        i = i + 1;
    }
    res
}

/// The markers of the dorsal auxiliary projection (axes: first spatial
/// component across, negated third up).  With a hover present, exactly
/// the records within the slab and the primary view's horizontal range
/// are drawn, in store order, each flagged when it lies within the
/// highlight distance; without one, every record draws, unrestricted
/// and unhighlighted.  The caller draws the vertical reference line at
/// the hovered first component when a hover is present.
pub fn dorsal_view(
    data: &Vec<Neuron>,
    hover: Option<HoverPos>,
    xmin: i64,
    xmax: i64,
) -> (res: Vec<AuxMarker>)
    requires
        forall|i: int| 0 <= i < data@.len() ==> neuron_wf(#[trigger] views_of(data@)[i]),
        match hover {
            Option::None => true,
            Option::Some(h) => hover_ok(h),
        },
        coord_ok(xmin as int),
        coord_ok(xmax as int),
    ensures
        forall|k1: int, k2: int|
            0 <= k1 < k2 < res@.len() ==> (#[trigger] res@[k1]).index < (#[trigger] res@[k2]).index,
        forall|k: int|
            0 <= k < res@.len() ==> {
                let m = #[trigger] res@[k];
                &&& m.index < data@.len()
                &&& slab_pass_b(hover, xmin as int, xmax as int, views_of(data@)[m.index as int])
                &&& m.px == views_of(data@)[m.index as int].x
                &&& m.py == -views_of(data@)[m.index as int].z
                &&& m.highlighted == match hover {
                    Option::None => false,
                    Option::Some(h) => spec_highlighted(views_of(data@)[m.index as int], h),
                }
            },
        forall|i: int|
            0 <= i < data@.len() && slab_pass_b(hover, xmin as int, xmax as int, #[trigger] views_of(
                data@,
            )[i]) ==> has_index(res@, i),
{
    let mut res: Vec<AuxMarker> = Vec::new();
    let mut i: usize = 0;
    while i < data.len()
        invariant
            0 <= i <= data@.len(),
            forall|i0: int| 0 <= i0 < data@.len() ==> neuron_wf(#[trigger] views_of(data@)[i0]),
            match hover {
                Option::None => true,
                Option::Some(h) => hover_ok(h),
            },
            coord_ok(xmin as int),
            coord_ok(xmax as int),
            forall|k: int| 0 <= k < res@.len() ==> (#[trigger] res@[k]).index < i,
            forall|k1: int, k2: int|
                0 <= k1 < k2 < res@.len() ==> (#[trigger] res@[k1]).index < (
                #[trigger] res@[k2]).index,
            forall|k: int|
                0 <= k < res@.len() ==> {
                    let m = #[trigger] res@[k];
                    &&& m.index < data@.len()
                    &&& slab_pass_b(hover, xmin as int, xmax as int, views_of(data@)[m.index as int])
                    &&& m.px == views_of(data@)[m.index as int].x
                    &&& m.py == -views_of(data@)[m.index as int].z
                    &&& m.highlighted == match hover {
                        Option::None => false,
                        Option::Some(h) => spec_highlighted(views_of(data@)[m.index as int], h),
                    }
                },
            forall|i0: int|
                0 <= i0 < i && slab_pass_b(hover, xmin as int, xmax as int, #[trigger] views_of(
                    data@,
                )[i0]) ==> has_index(res@, i0),
        decreases data@.len() - i,
    {
        assert(views_of(data@)[i as int] == data@[i as int]@);
        let passes = match hover {
            Option::None => true,
            Option::Some(h) => {
                let lo = h.y - SLAB_MILLI;
                let hi = h.y + SLAB_MILLI;
                data[i].x >= xmin && data[i].x <= xmax && data[i].y >= lo && data[i].y <= hi
            },
        };
        if passes {
            let highlighted = match hover {
                Option::None => false,
                Option::Some(h) => is_highlighted(&data[i], h),
            };
            let ghost old_res = res@;
            res.push(
                AuxMarker { index: i, px: data[i].x, py: -data[i].z, highlighted },
            );
            assert forall|i0: int|
                0 <= i0 < i + 1 && slab_pass_b(hover, xmin as int, xmax as int, #[trigger] views_of(
                    data@,
                )[i0]) implies has_index(res@, i0) by {
                if i0 < i {
                    assert(has_index(old_res, i0));
                    let k = choose|k: int| 0 <= k < old_res.len() && (#[trigger] old_res[k]).index
                        == i0;
                    assert(res@[k].index == i0);
                } else {
                    assert(res@[old_res.len() as int].index == i0);
                }
            }
        }
        i = i + 1;
    }
    res
}

} // verus!
