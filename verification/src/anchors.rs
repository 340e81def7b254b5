//! The anchor grid of the detector and the decoding of one anchor's
//! predicted distances.
use vstd::prelude::*;
use crate::fixed::UNITS;
use crate::schemas::Bbox;

verus! {

/// Side of the square model input, in pixels.
pub const INPUT_SIDE: usize = 640;

/// The detector reports at three strides.
pub open spec fn valid_stride(stride: int) -> bool {
    stride == 8 || stride == 16 || stride == 32
}

/// Number of grid cells along one axis of the model input.
pub open spec fn cells_per_axis(stride: int) -> int {
    640int / stride
}

/// Number of anchors of a stride: two for each cell of the grid.
pub open spec fn anchor_count(stride: int) -> int {
    2 * cells_per_axis(stride) * cells_per_axis(stride)
}

/// Horizontal centre of an anchor, in pixels.
pub open spec fn anchor_x(index: int, stride: int) -> int {
    ((index / 2) * stride) % 640
}

/// Vertical centre of an anchor, in pixels.
pub open spec fn anchor_y(index: int, stride: int) -> int {
    (((index / 2) / cells_per_axis(stride)) * stride) % 640
}

/// The three strides have 12800, 3200 and 800 anchors.
pub proof fn lemma_anchor_counts()
    ensures
        anchor_count(8) == 12800,
        anchor_count(16) == 3200,
        anchor_count(32) == 800,
{
    assert(cells_per_axis(8) == 80);
    assert(cells_per_axis(16) == 40);
    assert(cells_per_axis(32) == 20);
}

/// The two anchors of a cell share its corner: anchor `index` sits in
/// column `(index / 2) % cells` and row `(index / 2) / cells` of the grid,
/// a whole number of strides from the origin and inside the input.
pub proof fn lemma_anchor_on_grid(index: int, stride: int)
    requires
        valid_stride(stride),
        0 <= index < anchor_count(stride),
    ensures
        anchor_x(index, stride) == ((index / 2) % cells_per_axis(stride)) * stride,
        anchor_y(index, stride) == ((index / 2) / cells_per_axis(stride)) * stride,
        0 <= anchor_x(index, stride) <= 640 - stride,
        0 <= anchor_y(index, stride) <= 640 - stride,
{
    let cell = index / 2;
    if stride == 8 {
        assert(cell == 80 * (cell / 80) + cell % 80);
        assert(0 <= cell / 80 < 80);
    } else if stride == 16 {
        assert(cell == 40 * (cell / 40) + cell % 40);
        assert(0 <= cell / 40 < 40);
    } else {
        assert(cell == 20 * (cell / 20) + cell % 20);
        assert(0 <= cell / 20 < 20);
    }
}

/// Number of anchors of a stride.
pub fn count_anchors(stride: usize) -> (count: usize)
    requires
        valid_stride(stride as int),
    ensures
        count == anchor_count(stride as int),
        800 <= count <= 12800,
{
    proof {
        lemma_anchor_counts();
    }
    if stride == 8 {
        12800
    } else if stride == 16 {
        3200
    } else {
        800
    }
}

/// Centre of the anchor with the given flat index, in pixels.
pub fn anchor_center(index: usize, stride: usize) -> (center: (usize, usize))
    requires
        valid_stride(stride as int),
        index < anchor_count(stride as int),
    ensures
        center.0 == anchor_x(index as int, stride as int),
        center.1 == anchor_y(index as int, stride as int),
        center.0 < 640,
        center.1 < 640,
{
    proof {
        lemma_anchor_counts();
    }
    let cells: usize = INPUT_SIDE / stride;
    let cell: usize = index / 2;
    assert(cell < 6400 && cells >= 20 && stride <= 32);
    assert(cell * stride <= 204_800 && (cell / cells) * stride <= 204_800) by (nonlinear_arith)
        requires
            cell < 6400,
            cells >= 20,
            stride <= 32,
    ;
    let x: usize = (cell * stride) % INPUT_SIDE;
    let y: usize = ((cell / cells) * stride) % INPUT_SIDE;
    (x, y)
}

/// A predicted distance, given in strides, as a length in units.
pub open spec fn reach(distance: i32, stride: int) -> int {
    distance * stride
}

/// The box of an anchor: its centre moved back by the first two distances
/// and forth by the last two.
pub open spec fn decoded_bbox(index: int, stride: int, distance: Seq<i32>) -> Bbox {
    let x = anchor_x(index, stride) * UNITS;
    let y = anchor_y(index, stride) * UNITS;
    Bbox {
        x1: (x - reach(distance[4 * index], stride)) as i64,
        y1: (y - reach(distance[4 * index + 1], stride)) as i64,
        x2: (x + reach(distance[4 * index + 2], stride)) as i64,
        y2: (y + reach(distance[4 * index + 3], stride)) as i64,
    }
}

/// One landmark of an anchor: its centre moved forth by a pair of
/// distances.
pub open spec fn decoded_point(index: int, stride: int, distance: Seq<i32>, k: int) -> (i64, i64) {
    (
        (anchor_x(index, stride) * UNITS + reach(distance[10 * index + 2 * k], stride)) as i64,
        (anchor_y(index, stride) * UNITS + reach(distance[10 * index + 2 * k + 1], stride)) as i64,
    )
}

/// The five landmarks of an anchor.
pub open spec fn decoded_landmarks(index: int, stride: int, distance: Seq<i32>) -> [(i64, i64); 5] {
    [
        decoded_point(index, stride, distance, 0),
        decoded_point(index, stride, distance, 1),
        decoded_point(index, stride, distance, 2),
        decoded_point(index, stride, distance, 3),
        decoded_point(index, stride, distance, 4),
    ]
}

/// A centre moved by a predicted distance stays far inside the range of a
/// coordinate.
pub open spec fn decoded_range(value: int) -> bool {
    -70_000_000_000 <= value <= 70_000_000_000
}

/// Moves a centre, given in pixels, by a predicted distance, given in
/// strides; the result is in units.
fn shifted(center: usize, distance: i32, stride: usize, forth: bool) -> (moved: i64)
    requires
        valid_stride(stride as int),
        center < 640,
    ensures
        forth ==> moved == center * UNITS + reach(distance, stride as int),
        !forth ==> moved == center * UNITS - reach(distance, stride as int),
        decoded_range(moved as int),
{
    let base: i64 = (center as i64) * UNITS;
    let span: i64 = if stride == 8 {
        (distance as i64) * 8
    } else if stride == 16 {
        (distance as i64) * 16
    } else {
        (distance as i64) * 32
    };
    if forth {
        base + span
    } else {
        base - span
    }
}

/// Decodes the box of one anchor from the box-distance tensor, which holds
/// four distances for each anchor.
pub fn distance2bbox(index: usize, stride: usize, distance: &Vec<i32>) -> (bbox: Bbox)
    requires
        valid_stride(stride as int),
        index < anchor_count(stride as int),
        distance.len() == 4 * anchor_count(stride as int),
    ensures
        bbox == decoded_bbox(index as int, stride as int, distance@),
        bbox.x1 == anchor_x(index as int, stride as int) * UNITS - distance[4 * index] * stride,
        bbox.y1 == anchor_y(index as int, stride as int) * UNITS - distance[4 * index + 1] * stride,
        bbox.x2 == anchor_x(index as int, stride as int) * UNITS + distance[4 * index + 2] * stride,
        bbox.y2 == anchor_y(index as int, stride as int) * UNITS + distance[4 * index + 3] * stride,
        decoded_range(bbox.x1 as int),
        decoded_range(bbox.y1 as int),
        decoded_range(bbox.x2 as int),
        decoded_range(bbox.y2 as int),
        bbox.wf(),
{
    let (x, y) = anchor_center(index, stride);
    let at: usize = 4 * index;
    Bbox {
        x1: shifted(x, distance[at], stride, false),
        y1: shifted(y, distance[at + 1], stride, false),
        x2: shifted(x, distance[at + 2], stride, true),
        y2: shifted(y, distance[at + 3], stride, true),
    }
}

/// Decodes the five landmarks of one anchor from the landmark-distance
/// tensor, which holds ten distances for each anchor.
pub fn distance2kps(index: usize, stride: usize, distance: &Vec<i32>) -> (landmarks: [(i64, i64); 5])
    requires
        valid_stride(stride as int),
        index < anchor_count(stride as int),
        distance.len() == 10 * anchor_count(stride as int),
    ensures
        landmarks == decoded_landmarks(index as int, stride as int, distance@),
        forall|k: int|
            0 <= k < 5 ==> {
                &&& (#[trigger] landmarks@[k]).0 == anchor_x(index as int, stride as int) * UNITS
                    + distance[10 * index + 2 * k] * stride
                &&& landmarks@[k].1 == anchor_y(index as int, stride as int) * UNITS
                    + distance[10 * index + 2 * k + 1] * stride
                &&& decoded_range(landmarks@[k].0 as int)
                &&& decoded_range(landmarks@[k].1 as int)
            },
{
    let (x, y) = anchor_center(index, stride);
    let at: usize = 10 * index;
    let landmarks = [
        (shifted(x, distance[at], stride, true), shifted(y, distance[at + 1], stride, true)),
        (shifted(x, distance[at + 2], stride, true), shifted(y, distance[at + 3], stride, true)),
        (shifted(x, distance[at + 4], stride, true), shifted(y, distance[at + 5], stride, true)),
        (shifted(x, distance[at + 6], stride, true), shifted(y, distance[at + 7], stride, true)),
        (shifted(x, distance[at + 8], stride, true), shifted(y, distance[at + 9], stride, true)),
    ];
    assert(landmarks@ =~= decoded_landmarks(index as int, stride as int, distance@)@);
    landmarks
}

} // verus!
