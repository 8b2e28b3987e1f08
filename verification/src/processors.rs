//! Processors that mix, gate and transform the blocks their node pulls.
//!
//! Each processor here is a small state machine over frames: the node layer
//! pulls and combines child frames and then hands the combined frame to the
//! processor's transform. The contracts state each transform exactly, over
//! the frame views.

use vstd::prelude::*;

use crate::num::{clamp_between, clamp_i64, clamp_to_i32, clamp32, div_i64, div_trunc, scale_lane};
use crate::sample::{
    frame_scale, seq_zero, Frame, FrameV, Sample, seq_scale,
};
use crate::wave::{sine_micro, sine_value};

verus! {

/// Mix the children and pass the mix on unchanged.
pub struct Mix {}

impl Mix {
    pub fn new() -> (r: Mix) {
        Mix {}
    }
}

/// Mix the children, but stop as soon as any one of them stops.
pub struct AllForOne {}

impl AllForOne {
    pub fn new() -> (r: AllForOne) {
        AllForOne {}
    }
}

/// When a child ends, reset it and pull once more; stop only if it still
/// yields nothing.
pub struct Loop {}

impl Loop {
    pub fn new() -> (r: Loop) {
        Loop {}
    }
}

/// Play the children in order, one at a time.
pub struct Concat {}

impl Concat {
    pub fn new() -> (r: Concat) {
        Concat {}
    }
}

/// Mix the children but keep only the left channel, as mono.
pub struct TakeLeft {}

impl TakeLeft {
    pub fn new() -> (r: TakeLeft) {
        TakeLeft {}
    }
}

/// Mix the children but keep only the right channel, as mono.
pub struct TakeRight {}

impl TakeRight {
    pub fn new() -> (r: TakeRight) {
        TakeRight {}
    }
}

/// Scale every sample by a gain level.
pub struct Gain {
    pub lvl: i64,
}

/// The level the gain stores for a requested value, held within the range
/// the lane arithmetic supports.
pub open spec fn gain_level(lvl: int) -> int {
    clamp_between(lvl, -4_000_000_000, 4_000_000_000)
}

impl Gain {
    /// Build the gain from a level in millionths.
    pub fn new(lvl: i64) -> (r: Gain)
        ensures
            r.lvl as int == gain_level(lvl as int),
    {
        Gain { lvl: clamp_i64(lvl, -4_000_000_000, 4_000_000_000) }
    }

    /// Scale both sides of a frame by the level.
    pub fn process_frame(&self, f: &Frame) -> (r: Frame)
        requires
            -4_000_000_000 <= self.lvl <= 4_000_000_000,
        ensures
            r@ == frame_scale(f@, self.lvl as int),
    {
        f.scale(self.lvl)
    }
}

/// Equal-power panning between the two channels.
pub struct Pan {
    pub left_weight: i64,
    pub right_weight: i64,
}

/// The angle a pan position sweeps, in millionths of a turn: an eighth of a
/// turn (a quarter of the half circle) scaled from position -1 to +1.
pub open spec fn pan_angle(v: int) -> int {
    div_trunc(clamp_between(v, -1_000_000, 1_000_000) + 1_000_000, 8)
}

pub open spec fn pan_left_weight(v: int) -> int {
    sine_micro(pan_angle(v) + 250_000)
}

pub open spec fn pan_right_weight(v: int) -> int {
    sine_micro(pan_angle(v))
}

/// A panned frame: the left side scaled by the left weight, the right side,
/// when there is one, by the right weight.
pub open spec fn pan_frame(f: FrameV, lw: int, rw: int) -> FrameV {
    FrameV {
        left: seq_scale(f.left, lw),
        right: match f.right {
            Some(r) => Some(seq_scale(r, rw)),
            None => None,
        },
    }
}

impl Pan {
    /// Build the pan from a position in millionths, -1 for hard left and +1
    /// for hard right.
    pub fn new(v: i64) -> (r: Pan)
        ensures
            r.left_weight as int == pan_left_weight(v as int),
            r.right_weight as int == pan_right_weight(v as int),
            -1_000_000 <= r.left_weight <= 1_000_000,
            -1_000_000 <= r.right_weight <= 1_000_000,
    {
        let vc = clamp_i64(v, -1_000_000, 1_000_000);
        let u = div_i64(vc + 1_000_000, 8);
        proof {
            crate::num::lemma_div_trunc_magnitude(vc as int + 1_000_000, 8, 2_000_000);
            vstd::arithmetic::div_mod::lemma_div_pos_is_pos(vc as int + 1_000_000, 8);
            vstd::arithmetic::div_mod::lemma_div_is_ordered(vc as int + 1_000_000, 2_000_000, 8);
        }
        let angle = u as u32;
        let right_weight = sine_value(angle) as i64;
        let left_weight = sine_value(angle + 250_000) as i64;
        Pan { left_weight, right_weight }
    }

    /// Weight the two channels; a mono frame keeps only its weighted left.
    pub fn process_frame(&self, f: &Frame) -> (r: Frame)
        requires
            -1_000_000 <= self.left_weight <= 1_000_000,
            -1_000_000 <= self.right_weight <= 1_000_000,
        ensures
            r@ == pan_frame(f@, self.left_weight as int, self.right_weight as int),
    {
        let left = f.left.scale(self.left_weight);
        let right = match &f.right {
            Some(s) => Some(s.scale(self.right_weight)),
            None => None,
        };
        Frame { left, right }
    }
}

/// A frame silenced lane by lane, keeping its mono or stereo shape.
pub open spec fn silent_like(f: FrameV) -> FrameV {
    FrameV {
        left: seq_zero(),
        right: match f.right {
            Some(_) => Some(seq_zero()),
            None => None,
        },
    }
}

/// Gate that can silence the stream while letting it advance.
pub struct Mute {
    pub muted: bool,
}

impl Mute {
    pub fn new() -> (r: Mute)
        ensures
            !r.muted,
    {
        Mute { muted: false }
    }

    /// Start silencing.
    pub fn mute(&mut self)
        ensures
            final(self).muted,
    {
        self.muted = true;
    }

    /// Stop silencing.
    pub fn unmute(&mut self)
        ensures
            !final(self).muted,
    {
        self.muted = false;
    }

    /// While muted, a silent frame of the input's shape; else the input.
    pub fn process_frame(&self, f: &Frame) -> (r: Frame)
        ensures
            self.muted ==> r@ == silent_like(f@),
            !self.muted ==> r == *f,
    {
        if self.muted {
            let right = match &f.right {
                Some(_) => Some(Sample::zero()),
                None => None,
            };
            Frame { left: Sample::zero(), right }
        } else {
            *f
        }
    }
}

/// Gate that can pause the stream: while paused the subtree reports end of
/// stream and does not advance.
pub struct Pause {
    pub paused: bool,
}

impl Pause {
    pub fn new() -> (r: Pause)
        ensures
            !r.paused,
    {
        Pause { paused: false }
    }

    /// Stop the stream.
    pub fn pause(&mut self)
        ensures
            final(self).paused,
    {
        self.paused = true;
    }

    /// Let the stream run again.
    pub fn play(&mut self)
        ensures
            !final(self).paused,
    {
        self.paused = false;
    }
}

/// Pass-through that counts the samples that went by.
pub struct TrackPosition {
    pub elapsed: u32,
}

impl TrackPosition {
    pub fn new() -> (r: TrackPosition)
        ensures
            r.elapsed == 0,
    {
        TrackPosition { elapsed: 0 }
    }
}

/// Swap the two channels of a stereo frame; mono frames pass unchanged.
pub struct Swap {}

/// The swapped frame.
pub open spec fn swap_frame(f: FrameV) -> FrameV {
    match f.right {
        Some(r) => FrameV { left: r, right: Some(f.left) },
        None => f,
    }
}

impl Swap {
    pub fn new() -> (r: Swap) {
        Swap {}
    }

    /// Swap the channels of a stereo frame; pass a mono frame through.
    pub fn process_frame(&self, f: &Frame) -> (r: Frame)
        ensures
            r@ == swap_frame(f@),
    {
        match &f.right {
            Some(right) => Frame::stereo(*right, f.left),
            None => *f,
        }
    }
}

/// Emit the previous frame; store the current one.
pub struct OneDelay {
    pub prev: Frame,
}

impl OneDelay {
    pub fn new() -> (r: OneDelay)
        ensures
            r.prev@ == (FrameV { left: seq_zero(), right: None }),
    {
        OneDelay { prev: Frame::zero() }
    }

    /// Emit the stored frame and store the input for the next call.
    pub fn process_frame(&mut self, f: Frame) -> (r: Frame)
        ensures
            r == old(self).prev,
            final(self).prev == f,
    {
        let r = self.prev;
        self.prev = f;
        r
    }
}

/// Delay the stream by a fixed number of frames through a circular buffer
/// that starts out silent.
pub struct Delay {
    pub buf: Vec<Frame>,
    pub idx: usize,
}

pub open spec fn delay_wf(d: Delay) -> bool {
    d.buf@.len() >= 1 && d.idx < d.buf@.len()
}

impl Delay {
    /// A delay line of the given number of frames, all silent.
    pub fn new(size: usize) -> (r: Delay)
        requires
            size >= 1,
        ensures
            delay_wf(r),
            r.buf@.len() == size,
            r.idx == 0,
            forall|j: int|
                0 <= j < size ==> (#[trigger] r.buf@[j])@ == (FrameV {
                    left: seq_zero(),
                    right: None,
                }),
    {
        let mut buf: Vec<Frame> = Vec::new();
        let mut i: usize = 0;
        while i < size
            invariant
                i <= size,
                buf@.len() == i,
                forall|j: int|
                    0 <= j < i ==> (#[trigger] buf@[j])@ == (FrameV {
                        left: seq_zero(),
                        right: None,
                    }),
            decreases size - i,
        {
            buf.push(Frame::zero());
            i = i + 1;
        }
        Delay { buf, idx: 0 }
    }

    /// Emit the oldest stored frame, store the input in its place, and step
    /// the cursor around the ring.
    pub fn process_frame(&mut self, f: Frame) -> (r: Frame)
        requires
            delay_wf(*old(self)),
        ensures
            delay_wf(*final(self)),
            r == old(self).buf@[old(self).idx as int],
            final(self).buf@ == old(self).buf@.update(old(self).idx as int, f),
            final(self).idx as int == (old(self).idx as int + 1) % (old(self).buf@.len() as int),
    {
        let r = self.buf[self.idx];
        let i = self.idx;
        self.buf[i] = f;
        let n = self.buf.len();
        assert(i < n);
        let next = i + 1;
        self.idx = if next >= n {
            0
        } else {
            next
        };
        proof {
            if old(self).idx + 1 < old(self).buf@.len() {
                vstd::arithmetic::div_mod::lemma_small_mod(
                    (old(self).idx + 1) as nat,
                    old(self).buf@.len() as nat,
                );
            } else {
                vstd::arithmetic::div_mod::lemma_mod_self_0(old(self).buf@.len() as int);
            }
        }
        r
    }
}

/// Ramp the gain linearly from a starting level to full scale over the
/// first `total` samples, then pass through.
pub struct FadeIn {
    pub gain0: i64,
    pub total: u32,
    pub elapsed: u32,
}

/// The gain the fade applies at sample `t`: full scale from the end of the
/// ramp on, and the linear interpolation from the starting gain before it.
pub open spec fn fade_gain(g0: int, n: int, t: int) -> int {
    if t >= n {
        1_000_000
    } else {
        g0 + div_trunc((1_000_000 - g0) * t, n)
    }
}

/// Where the sample counter stands after one more block.
pub open spec fn fade_advance(e: int, n: int) -> int {
    if e >= n {
        e
    } else if e + 8 >= n {
        n
    } else {
        e + 8
    }
}

/// A faded block: each lane scaled by the gain at its own sample position.
pub open spec fn fade_seq(a: Seq<int>, g0: int, n: int, t: int) -> Seq<int> {
    Seq::new(8, |k: int| scale_lane(a[k], fade_gain(g0, n, t + k)))
}

/// A faded frame: both sides take the same per-lane gains.
pub open spec fn fade_frame(f: FrameV, g0: int, n: int, t: int) -> FrameV {
    FrameV {
        left: fade_seq(f.left, g0, n, t),
        right: match f.right {
            Some(r) => Some(fade_seq(r, g0, n, t)),
            None => None,
        },
    }
}

/// The fade gain never leaves `[0, 1_000_000]` for a starting gain in that
/// range.
pub proof fn lemma_fade_gain_bounds(g0: int, n: int, t: int)
    requires
        0 <= g0 <= 1_000_000,
        0 <= t,
    ensures
        0 <= fade_gain(g0, n, t) <= 1_000_000,
{
    if t < n {
        let d = 1_000_000 - g0;
        assert(0 <= d * t <= d * n) by (nonlinear_arith)
            requires
                0 <= d,
                0 <= t < n,
        ;
        vstd::arithmetic::div_mod::lemma_div_pos_is_pos(d * t, n);
        vstd::arithmetic::div_mod::lemma_div_is_ordered(d * t, d * n, n);
        assert(d * n == n * d) by (nonlinear_arith);
        vstd::arithmetic::div_mod::lemma_div_multiples_vanish(d, n);
    }
}

fn fade_gain_exec(g0: i64, n: u32, t: u64) -> (r: i64)
    requires
        0 <= g0 <= 1_000_000,
        t <= 4_294_967_302,
    ensures
        r as int == fade_gain(g0 as int, n as int, t as int),
        0 <= r <= 1_000_000,
{
    if t >= n as u64 {
        1_000_000
    } else {
        proof {
            assert((1_000_000 - g0 as int) * (t as int) <= 1_000_000 * 4_294_967_302 && 0 <= (
            1_000_000 - g0 as int) * (t as int)) by (nonlinear_arith)
                requires
                    0 <= 1_000_000 - g0 as int <= 1_000_000,
                    0 <= t as int <= 4_294_967_302,
            ;
            lemma_fade_gain_bounds(g0 as int, n as int, t as int);
        }
        g0 + div_i64((1_000_000 - g0) * (t as i64), n as i64)
    }
}

fn fade_sample(s: &Sample, g0: i64, n: u32, t: u32) -> (r: Sample)
    requires
        0 <= g0 <= 1_000_000,
    ensures
        r@ == fade_seq(s@, g0 as int, n as int, t as int),
{
    let tb = t as u64;
    let l0 = crate::num::scale_lane_exec(s.lanes[0], fade_gain_exec(g0, n, tb));
    let l1 = crate::num::scale_lane_exec(s.lanes[1], fade_gain_exec(g0, n, tb + 1));
    let l2 = crate::num::scale_lane_exec(s.lanes[2], fade_gain_exec(g0, n, tb + 2));
    let l3 = crate::num::scale_lane_exec(s.lanes[3], fade_gain_exec(g0, n, tb + 3));
    let l4 = crate::num::scale_lane_exec(s.lanes[4], fade_gain_exec(g0, n, tb + 4));
    let l5 = crate::num::scale_lane_exec(s.lanes[5], fade_gain_exec(g0, n, tb + 5));
    let l6 = crate::num::scale_lane_exec(s.lanes[6], fade_gain_exec(g0, n, tb + 6));
    let l7 = crate::num::scale_lane_exec(s.lanes[7], fade_gain_exec(g0, n, tb + 7));
    let r = Sample { lanes: [l0, l1, l2, l3, l4, l5, l6, l7] };
    proof {
        assert(r@ =~= fade_seq(s@, g0 as int, n as int, t as int));
    }
    r
}

impl FadeIn {
    /// A fade from the given starting gain (in millionths, clamped into
    /// `[0, 1]`) to full scale over the given number of samples.
    pub fn new(g0: i64, total: u32) -> (r: FadeIn)
        ensures
            r.gain0 as int == clamp_between(g0 as int, 0, 1_000_000),
            r.total == total,
            r.elapsed == 0,
    {
        FadeIn { gain0: clamp_i64(g0, 0, 1_000_000), total, elapsed: 0 }
    }

    /// Apply the ramp at the current sample position to both sides and
    /// advance the position by one block.
    pub fn process_frame(&mut self, f: &Frame) -> (r: Frame)
        requires
            0 <= old(self).gain0 <= 1_000_000,
        ensures
            final(self).gain0 == old(self).gain0,
            final(self).total == old(self).total,
            final(self).elapsed as int == fade_advance(
                old(self).elapsed as int,
                old(self).total as int,
            ),
            r@ == fade_frame(
                f@,
                old(self).gain0 as int,
                old(self).total as int,
                old(self).elapsed as int,
            ),
    {
        let left = fade_sample(&f.left, self.gain0, self.total, self.elapsed);
        let right = match &f.right {
            Some(s) => Some(fade_sample(s, self.gain0, self.total, self.elapsed)),
            None => None,
        };
        if self.elapsed < self.total {
            if self.total - self.elapsed <= 8 {
                self.elapsed = self.total;
            } else {
                self.elapsed = self.elapsed + 8;
            }
        }
        Frame { left, right }
    }
}

/// The filter coefficients and state, as mathematical values.
pub ghost struct FilterState {
    pub x1: Seq<int>,
    pub x2: Seq<int>,
    pub y1: Seq<int>,
    pub y2: Seq<int>,
}

/// One lane of the biquad recurrence, normalized back to millionths.
pub open spec fn biquad_lane(
    b0: int,
    b1: int,
    b2: int,
    a1: int,
    a2: int,
    x: int,
    x1: int,
    x2: int,
    y1: int,
    y2: int,
) -> int {
    clamp32(div_trunc(b0 * x + b1 * x1 + b2 * x2 - a1 * y1 - a2 * y2, 1_000_000))
}

/// One block through the biquad: every lane steps by the recurrence and the
/// state registers roll.
pub open spec fn biquad_step(
    b0: int,
    b1: int,
    b2: int,
    a1: int,
    a2: int,
    st: FilterState,
    input: Seq<int>,
) -> (FilterState, Seq<int>) {
    let out = Seq::new(
        8,
        |k: int| biquad_lane(b0, b1, b2, a1, a2, input[k], st.x1[k], st.x2[k], st.y1[k], st.y2[k]),
    );
    (FilterState { x1: input, x2: st.x1, y1: out, y2: st.y1 }, out)
}

/// The angle of the filter's corner frequency, in millionths of a turn; the
/// frequency is held at or below the half sample rate.
pub open spec fn lhp_angle(freq: int) -> int {
    div_trunc(clamp_between(freq, 0, 22_050) * 1_000_000, 44_100)
}

pub open spec fn lhp_alpha(freq: int, q: int) -> int {
    div_trunc(sine_micro(lhp_angle(freq)) * 1_000_000, 2 * clamp_between(q, 1, 1_000_000_000_000))
}

/// A coefficient normalized by `a0` and held within the range the lane
/// arithmetic supports.
pub open spec fn lhp_norm(raw: int, a0: int) -> int
    recommends
        a0 >= 1,
{
    clamp_between(div_trunc(raw * 1_000_000, a0), -3_000_000, 3_000_000)
}

pub open spec fn lhp_cos(freq: int) -> int {
    sine_micro(lhp_angle(freq) + 250_000)
}

/// Biquad low-pass or high-pass filter with cookbook coefficients.
pub struct LowHighPass {
    pub low: bool,
    pub freq: u32,
    pub q_micro: i64,
    pub b0: i64,
    pub b1: i64,
    pub b2: i64,
    pub a1: i64,
    pub a2: i64,
    pub x1: Sample,
    pub x2: Sample,
    pub y1: Sample,
    pub y2: Sample,
}

pub open spec fn lhp_coefs_wf(f: LowHighPass) -> bool {
    -3_000_000 <= f.b0 <= 3_000_000 && -3_000_000 <= f.b1 <= 3_000_000 && -3_000_000 <= f.b2
        <= 3_000_000 && -3_000_000 <= f.a1 <= 3_000_000 && -3_000_000 <= f.a2 <= 3_000_000
}

/// The coefficients the constructor computes for a mode, corner frequency
/// and quality factor.
pub open spec fn lhp_coefs(low: bool, freq: int, q: int) -> (int, int, int, int, int) {
    let cos = lhp_cos(freq);
    let alpha = lhp_alpha(freq, q);
    let a0 = 1_000_000 + alpha;
    let b1r = if low {
        1_000_000 - cos
    } else {
        -1_000_000 - cos
    };
    let b0r = if low {
        div_trunc(1_000_000 - cos, 2)
    } else {
        div_trunc(1_000_000 + cos, 2)
    };
    (
        lhp_norm(b0r, a0),
        lhp_norm(b1r, a0),
        lhp_norm(b0r, a0),
        lhp_norm(-2 * cos, a0),
        lhp_norm(1_000_000 - alpha, a0),
    )
}

impl LowHighPass {
    /// The filter's state registers as mathematical values.
    pub open spec fn fstate(self) -> FilterState {
        FilterState { x1: self.x1@, x2: self.x2@, y1: self.y1@, y2: self.y2@ }
    }

    /// A low-pass (or, with `low` false, high-pass) filter at the given
    /// corner frequency in hertz with the given quality factor in
    /// millionths.
    pub fn new(low: bool, freq: u32, q_micro: i64) -> (r: LowHighPass)
        ensures
            r.low == low,
            r.freq == freq,
            r.q_micro == q_micro,
            lhp_coefs_wf(r),
            (r.b0 as int, r.b1 as int, r.b2 as int, r.a1 as int, r.a2 as int) == lhp_coefs(
                low,
                freq as int,
                q_micro as int,
            ),
            r.fstate() == (FilterState {
                x1: seq_zero(),
                x2: seq_zero(),
                y1: seq_zero(),
                y2: seq_zero(),
            }),
    {
        let fc = if freq > 22_050 {
            22_050u32
        } else {
            freq
        };
        let angle = ((fc as u64) * 1_000_000 / 44_100) as u32;
        proof {
            vstd::arithmetic::div_mod::lemma_div_pos_is_pos(fc as int * 1_000_000, 44_100);
            vstd::arithmetic::div_mod::lemma_div_is_ordered(
                fc as int * 1_000_000,
                22_050_000_000,
                44_100,
            );
            assert(lhp_angle(freq as int) == angle as int);
        }
        let sin = sine_value(angle) as i64;
        let cos = sine_value(angle + 250_000) as i64;
        let qc = clamp_i64(q_micro, 1, 1_000_000_000_000);
        proof {
            crate::num::lemma_div_trunc_magnitude(
                sin as int * 1_000_000,
                2 * qc as int,
                1_000_000_000_000,
            );
        }
        let alpha = div_i64(sin * 1_000_000, 2 * qc);
        let a0 = 1_000_000 + alpha;
        proof {
            crate::wave::lemma_sine_first_half_nonneg(angle as int);
            vstd::arithmetic::div_mod::lemma_div_pos_is_pos(sin as int * 1_000_000, 2 * qc as int);
        }
        let b1r: i64 = if low {
            1_000_000 - cos
        } else {
            -1_000_000 - cos
        };
        let b0r: i64 = if low {
            div_i64(1_000_000 - cos, 2)
        } else {
            div_i64(1_000_000 + cos, 2)
        };
        let b0 = norm_coef(b0r, a0);
        let b1 = norm_coef(b1r, a0);
        let b2 = b0;
        let minus_twice_cos: i64 = -(cos + cos);
        assert(minus_twice_cos as int == -2 * (cos as int));
        let a1 = norm_coef(minus_twice_cos, a0);
        let a2 = norm_coef(1_000_000 - alpha, a0);
        let zero = Sample::zero();
        let r = LowHighPass {
            low,
            freq,
            q_micro,
            b0,
            b1,
            b2,
            a1,
            a2,
            x1: zero,
            x2: zero,
            y1: zero,
            y2: zero,
        };
        proof {
            assert(r.fstate().x1 =~= seq_zero());
            assert(r.fstate().x2 =~= seq_zero());
            assert(r.fstate().y1 =~= seq_zero());
            assert(r.fstate().y2 =~= seq_zero());
        }
        r
    }

    /// Zero the state registers.
    pub fn reset(&mut self)
        ensures
            final(self).fstate() == (FilterState {
                x1: seq_zero(),
                x2: seq_zero(),
                y1: seq_zero(),
                y2: seq_zero(),
            }),
            final(self).b0 == old(self).b0,
            final(self).b1 == old(self).b1,
            final(self).b2 == old(self).b2,
            final(self).a1 == old(self).a1,
            final(self).a2 == old(self).a2,
            final(self).low == old(self).low,
            final(self).freq == old(self).freq,
            final(self).q_micro == old(self).q_micro,
    {
        let zero = Sample::zero();
        self.x1 = zero;
        self.x2 = zero;
        self.y1 = zero;
        self.y2 = zero;
        proof {
            assert(final(self).fstate().x1 =~= seq_zero());
            assert(final(self).fstate().x2 =~= seq_zero());
            assert(final(self).fstate().y1 =~= seq_zero());
            assert(final(self).fstate().y2 =~= seq_zero());
        }
    }

    /// Run one block through the recurrence and roll the state.
    pub fn process_sample(&mut self, s: &Sample) -> (r: Sample)
        requires
            lhp_coefs_wf(*old(self)),
        ensures
            lhp_coefs_wf(*final(self)),
            final(self).b0 == old(self).b0,
            final(self).b1 == old(self).b1,
            final(self).b2 == old(self).b2,
            final(self).a1 == old(self).a1,
            final(self).a2 == old(self).a2,
            final(self).low == old(self).low,
            final(self).freq == old(self).freq,
            final(self).q_micro == old(self).q_micro,
            (final(self).fstate(), r@) == biquad_step(
                old(self).b0 as int,
                old(self).b1 as int,
                old(self).b2 as int,
                old(self).a1 as int,
                old(self).a2 as int,
                old(self).fstate(),
                s@,
            ),
    {
        let l0 = self.lane(s, 0);
        let l1 = self.lane(s, 1);
        let l2 = self.lane(s, 2);
        let l3 = self.lane(s, 3);
        let l4 = self.lane(s, 4);
        let l5 = self.lane(s, 5);
        let l6 = self.lane(s, 6);
        let l7 = self.lane(s, 7);
        let out = Sample { lanes: [l0, l1, l2, l3, l4, l5, l6, l7] };
        self.x2 = self.x1;
        self.x1 = *s;
        self.y2 = self.y1;
        self.y1 = out;
        proof {
            let step = biquad_step(
                old(self).b0 as int,
                old(self).b1 as int,
                old(self).b2 as int,
                old(self).a1 as int,
                old(self).a2 as int,
                old(self).fstate(),
                s@,
            );
            assert(out@ =~= step.1);
            assert(final(self).fstate().x1 =~= step.0.x1);
            assert(final(self).fstate().x2 =~= step.0.x2);
            assert(final(self).fstate().y1 =~= step.0.y1);
            assert(final(self).fstate().y2 =~= step.0.y2);
        }
        out
    }

    fn lane(&self, s: &Sample, k: usize) -> (r: i32)
        requires
            lhp_coefs_wf(*self),
            k < 8,
        ensures
            r as int == biquad_lane(
                self.b0 as int,
                self.b1 as int,
                self.b2 as int,
                self.a1 as int,
                self.a2 as int,
                s@[k as int],
                self.fstate().x1[k as int],
                self.fstate().x2[k as int],
                self.fstate().y1[k as int],
                self.fstate().y2[k as int],
            ),
    {
        let p0 = cmul(self.b0, s.lanes[k]);
        let p1 = cmul(self.b1, self.x1.lanes[k]);
        let p2 = cmul(self.b2, self.x2.lanes[k]);
        let p3 = cmul(self.a1, self.y1.lanes[k]);
        let p4 = cmul(self.a2, self.y2.lanes[k]);
        let acc = p0 + p1 + p2 - p3 - p4;
        clamp_to_i32(div_i64(acc, 1_000_000))
    }
}

/// Multiply a bounded coefficient by a lane, exactly, within 64 bits.
fn cmul(c: i64, v: i32) -> (r: i64)
    requires
        -3_000_000 <= c <= 3_000_000,
    ensures
        r as int == c as int * v as int,
        -6_442_450_944_000_000 <= r <= 6_442_450_944_000_000,
{
    proof {
        assert(c as int * v as int <= 3_000_000 * 2_147_483_648 && c as int * v as int >= -(
        3_000_000 * 2_147_483_648)) by (nonlinear_arith)
            requires
                -3_000_000 <= c as int <= 3_000_000,
                -2_147_483_648 <= v as int <= 2_147_483_647,
        ;
    }
    c * (v as i64)
}

/// Normalize a raw coefficient by `a0`, clamped into the supported range.
fn norm_coef(raw: i64, a0: i64) -> (r: i64)
    requires
        1 <= a0 <= 1_100_000_000_000,
        -1_100_000_000_000 <= raw <= 1_100_000_000_000,
    ensures
        r as int == lhp_norm(raw as int, a0 as int),
        -3_000_000 <= r <= 3_000_000,
{
    let q = div_i64(raw * 1_000_000, a0);
    clamp_i64(q, -3_000_000, 3_000_000)
}

} // verus!
