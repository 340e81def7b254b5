//! Detection candidates in the coordinate space of the model input.
use vstd::prelude::*;
use crate::fixed::COORD_LIMIT;

verus! {

/// An axis-aligned box given by its top-left and bottom-right corners.
#[derive(Clone, Copy, Debug, PartialEq, Eq, Structural)]
pub struct Bbox {
    pub x1: i64,
    pub y1: i64,
    pub x2: i64,
    pub y2: i64,
}

impl Bbox {
    /// Every coordinate lies within `COORD_LIMIT` of the origin.
    pub open spec fn wf(self) -> bool {
        &&& -COORD_LIMIT <= self.x1 <= COORD_LIMIT
        &&& -COORD_LIMIT <= self.y1 <= COORD_LIMIT
        &&& -COORD_LIMIT <= self.x2 <= COORD_LIMIT
        &&& -COORD_LIMIT <= self.y2 <= COORD_LIMIT
    }

    /// Extent along the x axis; negative when the corners are out of order.
    pub open spec fn width(self) -> int {
        self.x2 - self.x1
    }

    /// Extent along the y axis; negative when the corners are out of order.
    pub open spec fn height(self) -> int {
        self.y2 - self.y1
    }

    /// Enclosed area in square units; a box with a negative extent encloses
    /// nothing.
    pub open spec fn area(self) -> int {
        if self.width() < 0 || self.height() < 0 {
            0
        } else {
            self.width() * self.height()
        }
    }

    /// The box common to `self` and `other`; its corners are out of order
    /// when the two do not meet.
    pub open spec fn overlap(self, other: Bbox) -> Bbox {
        Bbox {
            x1: if self.x1 >= other.x1 { self.x1 } else { other.x1 },
            y1: if self.y1 >= other.y1 { self.y1 } else { other.y1 },
            x2: if self.x2 <= other.x2 { self.x2 } else { other.x2 },
            y2: if self.y2 <= other.y2 { self.y2 } else { other.y2 },
        }
    }

    /// Tells whether every coordinate is in the range that `wf` describes.
    pub fn in_range(&self) -> (ok: bool)
        ensures
            ok == self.wf(),
    {
        -COORD_LIMIT <= self.x1 && self.x1 <= COORD_LIMIT
            && -COORD_LIMIT <= self.y1 && self.y1 <= COORD_LIMIT
            && -COORD_LIMIT <= self.x2 && self.x2 <= COORD_LIMIT
            && -COORD_LIMIT <= self.y2 && self.y2 <= COORD_LIMIT
    }
}

/// A face candidate as the detector reports it: confidence, box and five
/// landmarks (eyes, nose, mouth corners), all in model-input space.
#[derive(Clone, Copy, Debug, PartialEq, Eq)]
pub struct Face {
    pub score: i64,
    pub bbox: Bbox,
    pub landmarks: [(i64, i64); 5],
}

} // verus!
