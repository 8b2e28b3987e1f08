//! Blocks of eight samples and mono/stereo frames.
//!
//! All DSP operates on whole blocks of eight lanes. A frame carries a left
//! block and an optional right block; a missing right block marks a mono
//! frame. Lane values are `i32` fixed-point numbers in millionths of full
//! scale.

use vstd::prelude::*;

use crate::num::{clamp32, clamp_to_i32, div_i64, div_trunc, scale_lane, scale_lane_exec};

verus! {

/// One block of eight sample lanes.
#[derive(Clone, Copy)]
pub struct Sample {
    pub lanes: [i32; 8],
}

/// The mathematical value of a block: a sequence of eight lane values.
impl View for Sample {
    type V = Seq<int>;

    open spec fn view(&self) -> Seq<int> {
        Seq::new(8, |i: int| self.lanes[i] as int)
    }
}

/// The mathematical value of a frame.
pub ghost struct FrameV {
    pub left: Seq<int>,
    pub right: Option<Seq<int>>,
}

/// One frame: a left block and, for stereo, a right block.
#[derive(Clone, Copy)]
pub struct Frame {
    pub left: Sample,
    pub right: Option<Sample>,
}

impl View for Frame {
    type V = FrameV;

    open spec fn view(&self) -> FrameV {
        FrameV {
            left: self.left@,
            right: match self.right {
                Some(r) => Some(r@),
                None => None,
            },
        }
    }
}

pub open spec fn seq_zero() -> Seq<int> {
    Seq::new(8, |i: int| 0)
}

pub open spec fn seq_splat(v: int) -> Seq<int> {
    Seq::new(8, |i: int| v)
}

/// Lane-wise sum, clamped into lane range.
pub open spec fn seq_add(a: Seq<int>, b: Seq<int>) -> Seq<int> {
    Seq::new(8, |i: int| clamp32(a[i] + b[i]))
}

/// Lane-wise truncating division by a positive count.
pub open spec fn seq_div(a: Seq<int>, k: int) -> Seq<int> {
    Seq::new(8, |i: int| div_trunc(a[i], k))
}

/// Lane-wise scaling by a gain in millionths.
pub open spec fn seq_scale(a: Seq<int>, g: int) -> Seq<int> {
    Seq::new(8, |i: int| scale_lane(a[i], g))
}

/// Frame mixing: lanes add; a side present in only one operand is kept as is.
pub open spec fn frame_add(a: FrameV, b: FrameV) -> FrameV {
    FrameV {
        left: seq_add(a.left, b.left),
        right: match (a.right, b.right) {
            (None, None) => None,
            (None, Some(r)) => Some(r),
            (Some(r), None) => Some(r),
            (Some(x), Some(y)) => Some(seq_add(x, y)),
        },
    }
}

/// Frame division by a positive count, on both sides.
pub open spec fn frame_div(a: FrameV, k: int) -> FrameV {
    FrameV {
        left: seq_div(a.left, k),
        right: match a.right {
            Some(r) => Some(seq_div(r, k)),
            None => None,
        },
    }
}

/// Frame scaling by a gain in millionths, on both sides.
pub open spec fn frame_scale(a: FrameV, g: int) -> FrameV {
    FrameV {
        left: seq_scale(a.left, g),
        right: match a.right {
            Some(r) => Some(seq_scale(r, g)),
            None => None,
        },
    }
}

impl Sample {
    /// The all-zero block.
    pub fn zero() -> (r: Sample)
        ensures
            r@ == seq_zero(),
    {
        let r = Sample { lanes: [0i32; 8] };
        proof {
            assert(r@ =~= seq_zero());
        }
        r
    }

    /// A block with the same value in every lane.
    pub fn splat(v: i32) -> (r: Sample)
        ensures
            r@ == seq_splat(v as int),
    {
        let r = Sample { lanes: [v, v, v, v, v, v, v, v] };
        proof {
            assert(r@ =~= seq_splat(v as int));
        }
        r
    }

    /// A block built from eight lane values.
    pub fn new(lanes: [i32; 8]) -> (r: Sample)
        ensures
            r.lanes == lanes,
    {
        Sample { lanes }
    }

    /// Lane-wise sum of two blocks, clamped into lane range.
    pub fn add(&self, other: &Sample) -> (r: Sample)
        ensures
            r@ == seq_add(self@, other@),
    {
        let l0 = clamp_to_i32(self.lanes[0] as i64 + other.lanes[0] as i64);
        let l1 = clamp_to_i32(self.lanes[1] as i64 + other.lanes[1] as i64);
        let l2 = clamp_to_i32(self.lanes[2] as i64 + other.lanes[2] as i64);
        let l3 = clamp_to_i32(self.lanes[3] as i64 + other.lanes[3] as i64);
        let l4 = clamp_to_i32(self.lanes[4] as i64 + other.lanes[4] as i64);
        let l5 = clamp_to_i32(self.lanes[5] as i64 + other.lanes[5] as i64);
        let l6 = clamp_to_i32(self.lanes[6] as i64 + other.lanes[6] as i64);
        let l7 = clamp_to_i32(self.lanes[7] as i64 + other.lanes[7] as i64);
        let r = Sample { lanes: [l0, l1, l2, l3, l4, l5, l6, l7] };
        proof {
            assert(r@ =~= seq_add(self@, other@));
        }
        r
    }

    /// Lane-wise truncating division by a positive count.
    pub fn div_count(&self, k: u32) -> (r: Sample)
        requires
            k >= 1,
        ensures
            r@ == seq_div(self@, k as int),
    {
        let d = k as i64;
        let l0 = clamp_to_i32(div_i64(self.lanes[0] as i64, d));
        let l1 = clamp_to_i32(div_i64(self.lanes[1] as i64, d));
        let l2 = clamp_to_i32(div_i64(self.lanes[2] as i64, d));
        let l3 = clamp_to_i32(div_i64(self.lanes[3] as i64, d));
        let l4 = clamp_to_i32(div_i64(self.lanes[4] as i64, d));
        let l5 = clamp_to_i32(div_i64(self.lanes[5] as i64, d));
        let l6 = clamp_to_i32(div_i64(self.lanes[6] as i64, d));
        let l7 = clamp_to_i32(div_i64(self.lanes[7] as i64, d));
        let r = Sample { lanes: [l0, l1, l2, l3, l4, l5, l6, l7] };
        proof {
            assert forall|i: int| 0 <= i < 8 implies r@[i] == div_trunc(self@[i], k as int) by {
                crate::num::lemma_div_trunc_in_lane_range(self@[i], k as int);
            }
            assert(r@ =~= seq_div(self@, k as int));
        }
        r
    }

    /// Lane-wise scaling by a gain in millionths.
    pub fn scale(&self, g: i64) -> (r: Sample)
        requires
            -4_000_000_000i64 <= g <= 4_000_000_000i64,
        ensures
            r@ == seq_scale(self@, g as int),
    {
        let l0 = scale_lane_exec(self.lanes[0], g);
        let l1 = scale_lane_exec(self.lanes[1], g);
        let l2 = scale_lane_exec(self.lanes[2], g);
        let l3 = scale_lane_exec(self.lanes[3], g);
        let l4 = scale_lane_exec(self.lanes[4], g);
        let l5 = scale_lane_exec(self.lanes[5], g);
        let l6 = scale_lane_exec(self.lanes[6], g);
        let l7 = scale_lane_exec(self.lanes[7], g);
        let r = Sample { lanes: [l0, l1, l2, l3, l4, l5, l6, l7] };
        proof {
            assert(r@ =~= seq_scale(self@, g as int));
        }
        r
    }
}

impl Frame {
    /// The silent mono frame.
    pub fn zero() -> (r: Frame)
        ensures
            r@ == (FrameV { left: seq_zero(), right: None }),
    {
        Frame { left: Sample::zero(), right: None }
    }

    /// A mono frame.
    pub fn mono(s: Sample) -> (r: Frame)
        ensures
            r@ == (FrameV { left: s@, right: None }),
    {
        Frame { left: s, right: None }
    }

    /// A stereo frame.
    pub fn stereo(l: Sample, r: Sample) -> (res: Frame)
        ensures
            res@ == (FrameV { left: l@, right: Some(r@) }),
    {
        Frame { left: l, right: Some(r) }
    }

    /// Mix two frames: lanes add; a side only one frame has is kept as is.
    pub fn add(&self, other: &Frame) -> (r: Frame)
        ensures
            r@ == frame_add(self@, other@),
    {
        let left = self.left.add(&other.left);
        let right = match (&self.right, &other.right) {
            (None, None) => None,
            (None, Some(r)) => Some(*r),
            (Some(r), None) => Some(*r),
            (Some(x), Some(y)) => Some(x.add(y)),
        };
        Frame { left, right }
    }

    /// Divide both sides by a positive count.
    pub fn div_count(&self, k: u32) -> (r: Frame)
        requires
            k >= 1,
        ensures
            r@ == frame_div(self@, k as int),
    {
        let left = self.left.div_count(k);
        let right = match &self.right {
            Some(r) => Some(r.div_count(k)),
            None => None,
        };
        Frame { left, right }
    }

    /// Scale both sides by a gain in millionths.
    pub fn scale(&self, g: i64) -> (r: Frame)
        requires
            -4_000_000_000i64 <= g <= 4_000_000_000i64,
        ensures
            r@ == frame_scale(self@, g as int),
    {
        let left = self.left.scale(g);
        let right = match &self.right {
            Some(r) => Some(r.scale(g)),
            None => None,
        };
        Frame { left, right }
    }
}

} // verus!
