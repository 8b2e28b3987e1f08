//! A node of the processor tree.
//!
//! A node owns its ordered children, one processor, and at most one
//! modulator binding. Pulling a frame recursively pulls the children,
//! combines their frames as the processor's kind demands, and applies the
//! processor's transform; before each pull the modulator, when one is bound,
//! may overwrite one processor parameter.

use vstd::prelude::*;

use crate::error::NodeError;
use crate::modulators::{modulator_value, modulator_wf, Modulator};
use crate::processor::{processor_wf, reset_spec, set_spec, Processor};
use crate::processors::{
    biquad_step, fade_advance, fade_frame, pan_frame, silent_like, swap_frame,
};
use crate::sample::{
    frame_add, frame_div, seq_add, seq_div, seq_zero, Frame, FrameV, Sample,
};

verus! {

/// A modulator wired to one parameter of the node's processor.
pub struct WiredModulator {
    pub param: u8,
    pub modulator: Modulator,
    pub time: u32,
}

/// A node of the processor tree.
pub struct Node {
    pub children: Vec<Node>,
    pub proc: Processor,
    pub modulator: Option<WiredModulator>,
}

/// The number of nodes in a forest.
pub open spec fn nodes_size(s: Seq<Node>) -> nat
    decreases s,
{
    if s.len() == 0 {
        0
    } else {
        s[0].size() + nodes_size(s.subrange(1, s.len() as int))
    }
}

impl Node {
    /// The number of nodes in the subtree, this node included.
    pub open spec fn size(self) -> nat
        decreases self,
    {
        1 + nodes_size(self.children@)
    }

    /// Well-formedness: the fan-out cap holds and every processor and
    /// modulator is within its internal bounds, recursively.
    pub open spec fn wf(self) -> bool
        decreases self,
    {
        &&& self.children@.len() <= 4
        &&& processor_wf(self.proc)
        &&& match self.modulator {
            Some(w) => modulator_wf(w.modulator),
            None => true,
        }
        &&& forall|i: int| 0 <= i < self.children@.len() ==> (#[trigger] self.children@[i]).wf()
    }

    /// Two nodes have the same tree shape: the same number of children at
    /// every position, recursively.
    pub open spec fn same_shape(self, other: Node) -> bool
        decreases self,
    {
        &&& self.children@.len() == other.children@.len()
        &&& forall|i: int|
            0 <= i < self.children@.len() ==> (#[trigger] self.children@[i]).same_shape(
                other.children@[i],
            )
    }

    /// The path, read from index `i` on, descends through existing children.
    pub open spec fn resolves(self, path: Seq<u8>, i: int) -> bool
        decreases path.len() - i,
    {
        if i < 0 || i >= path.len() {
            true
        } else {
            path[i] < self.children@.len() && self.children@[path[i] as int].resolves(path, i + 1)
        }
    }
}

/// Every node of a forest is well formed.
pub open spec fn nodes_wf(s: Seq<Node>) -> bool {
    forall|i: int| 0 <= i < s.len() ==> (#[trigger] s[i]).wf()
}

/// An element never outweighs its forest.
pub proof fn lemma_nodes_size_element(s: Seq<Node>, i: int)
    requires
        0 <= i < s.len(),
    ensures
        s[i].size() <= nodes_size(s),
    decreases s.len(),
{
    if i == 0 {
    } else {
        lemma_nodes_size_element(s.subrange(1, s.len() as int), i - 1);
        assert(s.subrange(1, s.len() as int)[i - 1] == s[i]);
    }
}

/// Forests of nodes of pointwise equal sizes have equal sizes.
pub proof fn lemma_nodes_size_pointwise(s1: Seq<Node>, s2: Seq<Node>)
    requires
        s1.len() == s2.len(),
        forall|j: int| 0 <= j < s1.len() ==> (#[trigger] s1[j]).size() == s2[j].size(),
    ensures
        nodes_size(s1) == nodes_size(s2),
    decreases s1.len(),
{
    if s1.len() > 0 {
        let t1 = s1.subrange(1, s1.len() as int);
        let t2 = s2.subrange(1, s2.len() as int);
        assert forall|j: int| 0 <= j < t1.len() implies (#[trigger] t1[j]).size()
            == t2[j].size() by {
            assert(t1[j] == s1[j + 1]);
            assert(t2[j] == s2[j + 1]);
        }
        lemma_nodes_size_pointwise(t1, t2);
    }
}

/// Same shape is reflexive.
pub proof fn lemma_same_shape_refl(n: Node)
    ensures
        n.same_shape(n),
    decreases n,
{
    assert forall|i: int| 0 <= i < n.children@.len() implies (
    #[trigger] n.children@[i]).same_shape(n.children@[i]) by {
        lemma_same_shape_refl(n.children@[i]);
    }
}

/// Same shape is transitive.
pub proof fn lemma_same_shape_trans(a: Node, b: Node, c: Node)
    requires
        a.same_shape(b),
        b.same_shape(c),
    ensures
        a.same_shape(c),
    decreases a,
{
    assert forall|i: int| 0 <= i < a.children@.len() implies (
    #[trigger] a.children@[i]).same_shape(c.children@[i]) by {
        lemma_same_shape_trans(a.children@[i], b.children@[i], c.children@[i]);
    }
}

/// Nodes of the same shape have the same size.
pub proof fn lemma_same_shape_size(a: Node, b: Node)
    requires
        a.same_shape(b),
    ensures
        a.size() == b.size(),
    decreases a,
{
    assert forall|j: int| 0 <= j < a.children@.len() implies (#[trigger] a.children@[j]).size()
        == b.children@[j].size() by {
        lemma_same_shape_size(a.children@[j], b.children@[j]);
    }
    lemma_nodes_size_pointwise(a.children@, b.children@);
}

/// Nodes of the same shape resolve the same paths.
pub proof fn lemma_same_shape_resolves(a: Node, b: Node, path: Seq<u8>, i: int)
    requires
        a.same_shape(b),
        a.resolves(path, i),
    ensures
        b.resolves(path, i),
    decreases path.len() - i,
{
    if 0 <= i < path.len() {
        lemma_same_shape_resolves(
            a.children@[path[i] as int],
            b.children@[path[i] as int],
            path,
            i + 1,
        );
    }
}

/// What a whole-subtree reset leaves behind: every node keeps its shape and
/// its modulator, and every processor is reset.
pub open spec fn reset_all_spec(a: Node, b: Node) -> bool
    decreases a,
{
    &&& reset_spec(a.proc, b.proc)
    &&& b.modulator == a.modulator
    &&& b.children@.len() == a.children@.len()
    &&& forall|i: int|
        0 <= i < a.children@.len() ==> reset_all_spec(
            #[trigger] a.children@[i],
            b.children@[i],
        )
}

/// A whole-subtree reset keeps the shape.
pub proof fn lemma_reset_all_shape(a: Node, b: Node)
    requires
        reset_all_spec(a, b),
    ensures
        a.same_shape(b),
    decreases a,
{
    assert forall|i: int| 0 <= i < a.children@.len() implies (
    #[trigger] a.children@[i]).same_shape(b.children@[i]) by {
        lemma_reset_all_shape(a.children@[i], b.children@[i]);
    }
}

/// The silent mono frame, as a mathematical value.
pub open spec fn zero_frame() -> FrameV {
    FrameV { left: seq_zero(), right: None }
}

/// The frame views of a pulled sequence.
pub open spec fn frames_v(s: Seq<Option<Frame>>) -> Seq<Option<FrameV>> {
    s.map_values(
        |o: Option<Frame>|
            match o {
                Some(f) => Some(f@),
                None => None,
            },
    )
}

pub open spec fn all_v(s: Seq<Frame>) -> Seq<FrameV> {
    s.map_values(|f: Frame| f@)
}

/// How many children produced a frame.
pub open spec fn count_some(s: Seq<Option<FrameV>>) -> int
    decreases s,
{
    if s.len() == 0 {
        0
    } else {
        count_some(s.drop_last()) + (match s.last() {
            Some(_) => 1int,
            None => 0int,
        })
    }
}

/// A count of frames is never negative.
pub proof fn lemma_count_some_nonneg(s: Seq<Option<FrameV>>)
    ensures
        count_some(s) >= 0,
    decreases s,
{
    if s.len() > 0 {
        lemma_count_some_nonneg(s.drop_last());
    }
}

/// The running mix of the frames that were produced, starting from silence.
pub open spec fn sum_some(s: Seq<Option<FrameV>>) -> FrameV
    decreases s,
{
    if s.len() == 0 {
        zero_frame()
    } else {
        match s.last() {
            Some(f) => frame_add(sum_some(s.drop_last()), f),
            None => sum_some(s.drop_last()),
        }
    }
}

/// The running mix of all frames, starting from silence.
pub open spec fn sum_all(s: Seq<FrameV>) -> FrameV
    decreases s,
{
    if s.len() == 0 {
        zero_frame()
    } else {
        frame_add(sum_all(s.drop_last()), s.last())
    }
}

/// The running sum of the left blocks, starting from silence.
pub open spec fn sum_lefts(s: Seq<FrameV>) -> Seq<int>
    decreases s,
{
    if s.len() == 0 {
        seq_zero()
    } else {
        seq_add(sum_lefts(s.drop_last()), s.last().left)
    }
}

/// The running sum of the right blocks of the stereo frames, starting from
/// silence; mono frames contribute nothing.
pub open spec fn sum_rights(s: Seq<FrameV>) -> Seq<int>
    decreases s,
{
    if s.len() == 0 {
        seq_zero()
    } else {
        match s.last().right {
            Some(r) => seq_add(sum_rights(s.drop_last()), r),
            None => sum_rights(s.drop_last()),
        }
    }
}

/// The mix protocol: frames that were produced are summed and averaged over
/// their count; when no child produced a frame the mix ends.
pub fn mix_frames(frames: &Vec<Option<Frame>>) -> (r: Option<Frame>)
    requires
        frames@.len() <= 4,
    ensures
        count_some(frames_v(frames@)) == 0 ==> r is None,
        count_some(frames_v(frames@)) > 0 ==> (r matches Some(f) && f@ == frame_div(
            sum_some(frames_v(frames@)),
            count_some(frames_v(frames@)),
        )),
{
    let ghost s = frames_v(frames@);
    let n = frames.len();
    let mut acc = Frame::zero();
    let mut count: usize = 0;
    let mut i: usize = 0;
    while i < n
        invariant
            i <= n,
            n == frames@.len(),
            s == frames_v(frames@),
            acc@ == sum_some(s.take(i as int)),
            count == count_some(s.take(i as int)),
            count <= i,
        decreases n - i,
    {
        proof {
            assert(s.take(i + 1).drop_last() =~= s.take(i as int));
            assert(s.take(i + 1).last() == s[i as int]);
        }
        match &frames[i] {
            Some(f) => {
                acc = acc.add(f);
                count = count + 1;
            },
            None => {},
        }
        i = i + 1;
    }
    proof {
        assert(s.take(n as int) =~= s);
    }
    if count == 0 {
        None
    } else {
        Some(acc.div_count(count as u32))
    }
}

/// The average of all frames, for processors that stop when any child stops.
pub fn avg_all(frames: &Vec<Frame>) -> (r: Frame)
    requires
        1 <= frames@.len() <= 4,
    ensures
        r@ == frame_div(sum_all(all_v(frames@)), frames@.len() as int),
{
    let ghost s = all_v(frames@);
    let n = frames.len();
    let mut acc = Frame::zero();
    let mut i: usize = 0;
    while i < n
        invariant
            i <= n,
            n == frames@.len(),
            s == all_v(frames@),
            acc@ == sum_all(s.take(i as int)),
        decreases n - i,
    {
        proof {
            assert(s.take(i + 1).drop_last() =~= s.take(i as int));
            assert(s.take(i + 1).last() == s[i as int]);
        }
        acc = acc.add(&frames[i]);
        i = i + 1;
    }
    proof {
        assert(s.take(n as int) =~= s);
    }
    acc.div_count(n as u32)
}

/// The average of the left blocks, as a mono frame.
pub fn take_left_mono(frames: &Vec<Frame>) -> (r: Frame)
    requires
        1 <= frames@.len() <= 4,
    ensures
        r@ == (FrameV {
            left: seq_div(sum_lefts(all_v(frames@)), frames@.len() as int),
            right: None,
        }),
{
    let ghost s = all_v(frames@);
    let n = frames.len();
    let mut acc = Sample::zero();
    let mut i: usize = 0;
    while i < n
        invariant
            i <= n,
            n == frames@.len(),
            s == all_v(frames@),
            acc@ == sum_lefts(s.take(i as int)),
        decreases n - i,
    {
        proof {
            assert(s.take(i + 1).drop_last() =~= s.take(i as int));
            assert(s.take(i + 1).last() == s[i as int]);
        }
        acc = acc.add(&frames[i].left);
        i = i + 1;
    }
    proof {
        assert(s.take(n as int) =~= s);
    }
    Frame::mono(acc.div_count(n as u32))
}

/// The average of the right blocks of the stereo frames, as a mono frame;
/// mono inputs contribute nothing but still count in the average.
pub fn take_right_mono(frames: &Vec<Frame>) -> (r: Frame)
    requires
        1 <= frames@.len() <= 4,
    ensures
        r@ == (FrameV {
            left: seq_div(sum_rights(all_v(frames@)), frames@.len() as int),
            right: None,
        }),
{
    let ghost s = all_v(frames@);
    let n = frames.len();
    let mut acc = Sample::zero();
    let mut i: usize = 0;
    while i < n
        invariant
            i <= n,
            n == frames@.len(),
            s == all_v(frames@),
            acc@ == sum_rights(s.take(i as int)),
        decreases n - i,
    {
        proof {
            assert(s.take(i + 1).drop_last() =~= s.take(i as int));
            assert(s.take(i + 1).last() == s[i as int]);
        }
        match &frames[i].right {
            Some(rt) => {
                acc = acc.add(rt);
            },
            None => {},
        }
        i = i + 1;
    }
    proof {
        assert(s.take(n as int) =~= s);
    }
    Frame::mono(acc.div_count(n as u32))
}

/// The frame view of an optional frame.
pub open spec fn opt_fv(o: Option<Frame>) -> Option<FrameV> {
    match o {
        Some(f) => Some(f@),
        None => None,
    }
}

/// The modulation phase of a pull: when a binding exists and its time sits
/// on a control-rate boundary, the modulator's value at that time is written
/// into the bound parameter; the time counter then advances by one block of
/// samples, wrapping. `p2` is the processor the rest of the pull works with
/// and `m2` the binding the node keeps.
pub open spec fn mod_phase(a: Node, p2: Processor, m2: Option<WiredModulator>) -> bool {
    match a.modulator {
        None => p2 == a.proc && m2 is None,
        Some(w) => {
            &&& (m2 matches Some(w2) && w2.param == w.param && w2.modulator == w.modulator
                && w2.time == w.time.wrapping_add(8))
            &&& if w.time % 735 == 0 {
                set_spec(a.proc, w.param, modulator_value(w.modulator, w.time as int) as i64, p2)
            } else {
                p2 == a.proc
            }
        },
    }
}

/// What a node-level reset does: the processor resets; the children and the
/// binding stay.
pub open spec fn node_reset(a: Node, b: Node) -> bool {
    reset_spec(a.proc, b.proc) && b.children == a.children && b.modulator == a.modulator
}

/// A processor that generates blocks itself and ignores its children.
pub open spec fn is_source(p: Processor) -> bool {
    match p {
        Processor::Empty(_) => true,
        Processor::Zero(_) => true,
        Processor::Sine(_) => true,
        Processor::Square(_) => true,
        Processor::Sawtooth(_) => true,
        Processor::Triangle(_) => true,
        Processor::Noise(_) => true,
        Processor::Pcm(_) => true,
        _ => false,
    }
}

/// The generation phase of a source: what block it emits and how its state
/// advances.
pub open spec fn gen_rel(p2: Processor, p3: Processor, r: Option<FrameV>) -> bool {
    match p2 {
        Processor::Empty(_) => p3 == p2 && r is None,
        Processor::Zero(_) => p3 == p2 && r == Some(zero_frame()),
        Processor::Sine(o) => match p3 {
            Processor::Sine(o2) => crate::sources::sine_gen(o, o2, r),
            _ => false,
        },
        Processor::Square(o) => match p3 {
            Processor::Square(o2) => crate::sources::square_gen(o, o2, r),
            _ => false,
        },
        Processor::Sawtooth(o) => match p3 {
            Processor::Sawtooth(o2) => crate::sources::sawtooth_gen(o, o2, r),
            _ => false,
        },
        Processor::Triangle(o) => match p3 {
            Processor::Triangle(o2) => crate::sources::triangle_gen(o, o2, r),
            _ => false,
        },
        Processor::Noise(n) => match p3 {
            Processor::Noise(n2) => crate::sources::noise_gen(n, n2, r),
            _ => false,
        },
        Processor::Pcm(p) => match p3 {
            Processor::Pcm(q) => crate::pcm::pcm_step(p, q, r),
            _ => false,
        },
        _ => false,
    }
}

/// The transform phase over the combined frame `m`: what frame comes out
/// and how the processor's own state advances.
pub open spec fn trans_rel(p2: Processor, p3: Processor, m: FrameV, out: FrameV) -> bool {
    match p2 {
        Processor::Mix(_) => p3 == p2 && out == m,
        Processor::Pause(_) => p3 == p2 && out == m,
        Processor::Gain(g) => p3 == p2 && out == crate::sample::frame_scale(m, g.lvl as int),
        Processor::Pan(w) => p3 == p2 && out == pan_frame(
            m,
            w.left_weight as int,
            w.right_weight as int,
        ),
        Processor::Mute(mu) => p3 == p2 && out == (if mu.muted {
            silent_like(m)
        } else {
            m
        }),
        Processor::FadeIn(fd) => match p3 {
            Processor::FadeIn(fd2) => fd2.gain0 == fd.gain0 && fd2.total == fd.total
                && fd2.elapsed as int == fade_advance(fd.elapsed as int, fd.total as int) && out
                == fade_frame(m, fd.gain0 as int, fd.total as int, fd.elapsed as int),
            _ => false,
        },
        Processor::Swap(_) => p3 == p2 && out == swap_frame(m),
        Processor::OneDelay(d) => match p3 {
            Processor::OneDelay(d2) => out == d.prev@ && d2.prev@ == m,
            _ => false,
        },
        Processor::Delay(d) => match p3 {
            Processor::Delay(d2) => {
                &&& out == d.buf@[d.idx as int]@
                &&& d2.buf@.len() == d.buf@.len()
                &&& d2.idx as int == (d.idx as int + 1) % (d.buf@.len() as int)
                &&& d2.buf@[d.idx as int]@ == m
                &&& forall|j: int|
                    0 <= j < d.buf@.len() && j != d.idx as int ==> d2.buf@[j] == d.buf@[j]
            },
            _ => false,
        },
        Processor::LowHighPass(lf) => match p3 {
            Processor::LowHighPass(lf2) => {
                &&& lf2.b0 == lf.b0 && lf2.b1 == lf.b1 && lf2.b2 == lf.b2 && lf2.a1 == lf.a1
                    && lf2.a2 == lf.a2
                &&& lf2.low == lf.low && lf2.freq == lf.freq && lf2.q_micro == lf.q_micro
                &&& ({
                    let s1 = biquad_step(
                        lf.b0 as int,
                        lf.b1 as int,
                        lf.b2 as int,
                        lf.a1 as int,
                        lf.a2 as int,
                        lf.fstate(),
                        m.left,
                    );
                    match m.right {
                        None => lf2.fstate() == s1.0 && out == (FrameV {
                            left: s1.1,
                            right: None,
                        }),
                        Some(rr) => ({
                            let s2 = biquad_step(
                                lf.b0 as int,
                                lf.b1 as int,
                                lf.b2 as int,
                                lf.a1 as int,
                                lf.a2 as int,
                                s1.0,
                                rr,
                            );
                            lf2.fstate() == s2.0 && out == (FrameV {
                                left: s1.1,
                                right: Some(s2.1),
                            })
                        }),
                    }
                })
            },
            _ => false,
        },
        Processor::TrackPosition(t) => match p3 {
            Processor::TrackPosition(t2) => t2.elapsed == t.elapsed.wrapping_add(8) && out == m,
            _ => false,
        },
        _ => false,
    }
}

/// The witness of one pull: the intermediate values the recursive step runs
/// through. The relation [`node_step`] quantifies over one witness; every
/// field is pinned by the equations below, so the witness adds nothing the
/// step could choose freely.
pub ghost struct StepWitness {
    /// The processor after the modulation phase.
    pub p2: Processor,
    /// The combined frame handed to the transform, if any.
    pub cf: Option<FrameV>,
    /// The per-child results of the default mix protocol.
    pub fs: Seq<Option<FrameV>>,
    /// The frames produced under the stop-at-first-end and loop protocols:
    /// all of them, or the prefix before the child that ended.
    pub afs: Seq<FrameV>,
    /// For the loop protocol: whether each child was reset and retried.
    pub flags: Seq<bool>,
    /// For the loop protocol: each retried child after its first, ended
    /// pull and after its reset.
    pub mids: Seq<(Node, Node)>,
    /// The witnesses of each child's pull: the first pull and, for a
    /// retried child, the second; equal where no retry happened.
    pub kids: Seq<(StepWitness, StepWitness)>,
}

/// Every child pulled once, left to right.
pub open spec fn pull_rel_w(
    cs: Seq<Node>,
    cs2: Seq<Node>,
    fs: Seq<Option<FrameV>>,
    ks: Seq<(StepWitness, StepWitness)>,
) -> bool
    decreases ks, 0nat,
{
    &&& cs2.len() == cs.len()
    &&& fs.len() == cs.len()
    &&& ks.len() == cs.len()
    &&& (cs.len() > 0 ==> node_step_w(cs[0], cs2[0], fs[0], ks[0].0) && pull_rel_w(
        cs.subrange(1, cs.len() as int),
        cs2.subrange(1, cs2.len() as int),
        fs.subrange(1, fs.len() as int),
        ks.subrange(1, ks.len() as int),
    ))
}

/// Children pulled left to right until one has ended: `Ok` carries every
/// child's frame, `Err` the frames before the child that ended; children
/// after the ended one are not pulled.
pub open spec fn pull_all_rel_w(
    cs: Seq<Node>,
    cs2: Seq<Node>,
    out: Result<Seq<FrameV>, Seq<FrameV>>,
    ks: Seq<(StepWitness, StepWitness)>,
) -> bool
    decreases ks, 0nat,
{
    &&& cs2.len() == cs.len()
    &&& match out {
        Ok(fs) => {
            &&& fs.len() == cs.len()
            &&& ks.len() == cs.len()
            &&& (cs.len() > 0 ==> node_step_w(cs[0], cs2[0], Some(fs[0]), ks[0].0)
                && pull_all_rel_w(
                cs.subrange(1, cs.len() as int),
                cs2.subrange(1, cs2.len() as int),
                Ok(fs.subrange(1, fs.len() as int)),
                ks.subrange(1, ks.len() as int),
            ))
        },
        Err(pre) => {
            &&& pre.len() < cs.len()
            &&& ks.len() == pre.len() + 1
            &&& if pre.len() == 0 {
                node_step_w(cs[0], cs2[0], None, ks[0].0) && cs2.subrange(1, cs2.len() as int)
                    == cs.subrange(1, cs.len() as int)
            } else {
                node_step_w(cs[0], cs2[0], Some(pre[0]), ks[0].0) && pull_all_rel_w(
                    cs.subrange(1, cs.len() as int),
                    cs2.subrange(1, cs2.len() as int),
                    Err(pre.subrange(1, pre.len() as int)),
                    ks.subrange(1, ks.len() as int),
                )
            }
        },
    }
}

/// Children pulled left to right until the first that still produces a
/// frame, which is emitted unchanged; children after it are not pulled.
pub open spec fn concat_rel_w(
    cs: Seq<Node>,
    cs2: Seq<Node>,
    r: Option<FrameV>,
    ks: Seq<(StepWitness, StepWitness)>,
) -> bool
    decreases ks, 0nat,
{
    &&& cs2.len() == cs.len()
    &&& match r {
        Some(f) => {
            &&& cs.len() > 0
            &&& 1 <= ks.len() <= cs.len()
            &&& if ks.len() == 1 {
                node_step_w(cs[0], cs2[0], Some(f), ks[0].0) && cs2.subrange(1, cs2.len() as int)
                    == cs.subrange(1, cs.len() as int)
            } else {
                node_step_w(cs[0], cs2[0], None, ks[0].0) && concat_rel_w(
                    cs.subrange(1, cs.len() as int),
                    cs2.subrange(1, cs2.len() as int),
                    Some(f),
                    ks.subrange(1, ks.len() as int),
                )
            }
        },
        None => {
            &&& ks.len() == cs.len()
            &&& (cs.len() > 0 ==> node_step_w(cs[0], cs2[0], None, ks[0].0) && concat_rel_w(
                cs.subrange(1, cs.len() as int),
                cs2.subrange(1, cs2.len() as int),
                None::<FrameV>,
                ks.subrange(1, ks.len() as int),
            ))
        },
    }
}

/// Children looped left to right: each yields a frame directly or after a
/// reset and one retry (`Ok`); or one child stays silent even after its
/// reset (`Err` with the frames before it), and children after it are not
/// pulled.
pub open spec fn loop_rel_w(
    cs: Seq<Node>,
    cs2: Seq<Node>,
    out: Result<Seq<FrameV>, Seq<FrameV>>,
    ks: Seq<(StepWitness, StepWitness)>,
    flags: Seq<bool>,
    mids: Seq<(Node, Node)>,
) -> bool
    decreases ks, 0nat,
{
    &&& cs2.len() == cs.len()
    &&& flags.len() == ks.len()
    &&& mids.len() == ks.len()
    &&& match out {
        Ok(fs) => {
            &&& fs.len() == cs.len()
            &&& ks.len() == cs.len()
            &&& (cs.len() > 0 ==> (if !flags[0] {
                node_step_w(cs[0], cs2[0], Some(fs[0]), ks[0].0)
            } else {
                node_step_w(cs[0], mids[0].0, None, ks[0].0) && node_reset(mids[0].0, mids[0].1)
                    && node_step_w(mids[0].1, cs2[0], Some(fs[0]), ks[0].1)
            }) && loop_rel_w(
                cs.subrange(1, cs.len() as int),
                cs2.subrange(1, cs2.len() as int),
                Ok(fs.subrange(1, fs.len() as int)),
                ks.subrange(1, ks.len() as int),
                flags.subrange(1, flags.len() as int),
                mids.subrange(1, mids.len() as int),
            ))
        },
        Err(pre) => {
            &&& pre.len() < cs.len()
            &&& ks.len() == pre.len() + 1
            &&& if pre.len() == 0 {
                &&& flags[0]
                &&& node_step_w(cs[0], mids[0].0, None, ks[0].0)
                &&& node_reset(mids[0].0, mids[0].1)
                &&& node_step_w(mids[0].1, cs2[0], None, ks[0].1)
                &&& cs2.subrange(1, cs2.len() as int) == cs.subrange(1, cs.len() as int)
            } else {
                &&& (if !flags[0] {
                    node_step_w(cs[0], cs2[0], Some(pre[0]), ks[0].0)
                } else {
                    node_step_w(cs[0], mids[0].0, None, ks[0].0) && node_reset(
                        mids[0].0,
                        mids[0].1,
                    ) && node_step_w(mids[0].1, cs2[0], Some(pre[0]), ks[0].1)
                })
                &&& loop_rel_w(
                    cs.subrange(1, cs.len() as int),
                    cs2.subrange(1, cs2.len() as int),
                    Err(pre.subrange(1, pre.len() as int)),
                    ks.subrange(1, ks.len() as int),
                    flags.subrange(1, flags.len() as int),
                    mids.subrange(1, mids.len() as int),
                )
            }
        },
    }
}

/// One pull of a node, against a given witness of its intermediate values:
/// the modulation phase may rewrite one parameter; a source then generates
/// its block; every other processor combines its children's recursively
/// pulled frames by its protocol and transforms the result.
pub open spec fn node_step_w(a: Node, b: Node, r: Option<FrameV>, w: StepWitness) -> bool
    decreases w, 1nat,
{
    &&& mod_phase(a, w.p2, b.modulator)
    &&& if is_source(w.p2) {
        b.children@ == a.children@ && gen_rel(w.p2, b.proc, r)
    } else {
        match w.p2 {
            Processor::Concat(_) => b.proc == w.p2 && concat_rel_w(
                a.children@,
                b.children@,
                r,
                w.kids,
            ),
            Processor::Loop(_) => b.proc == w.p2 && if a.children@.len() == 0 {
                r is None && b.children@ == a.children@
            } else {
                match r {
                    Some(m) => loop_rel_w(
                        a.children@,
                        b.children@,
                        Ok(w.afs),
                        w.kids,
                        w.flags,
                        w.mids,
                    ) && m == frame_div(sum_all(w.afs), a.children@.len() as int),
                    None => loop_rel_w(
                        a.children@,
                        b.children@,
                        Err(w.afs),
                        w.kids,
                        w.flags,
                        w.mids,
                    ),
                }
            },
            Processor::AllForOne(_) => b.proc == w.p2 && if a.children@.len() == 0 {
                r is None && b.children@ == a.children@
            } else {
                match r {
                    Some(m) => pull_all_rel_w(a.children@, b.children@, Ok(w.afs), w.kids) && m
                        == frame_div(sum_all(w.afs), a.children@.len() as int),
                    None => pull_all_rel_w(a.children@, b.children@, Err(w.afs), w.kids),
                }
            },
            Processor::TakeLeft(_) => b.proc == w.p2 && if a.children@.len() == 0 {
                r is None && b.children@ == a.children@
            } else {
                match r {
                    Some(m) => pull_all_rel_w(a.children@, b.children@, Ok(w.afs), w.kids) && m
                        == (FrameV {
                        left: seq_div(sum_lefts(w.afs), a.children@.len() as int),
                        right: None,
                    }),
                    None => pull_all_rel_w(a.children@, b.children@, Err(w.afs), w.kids),
                }
            },
            Processor::TakeRight(_) => b.proc == w.p2 && if a.children@.len() == 0 {
                r is None && b.children@ == a.children@
            } else {
                match r {
                    Some(m) => pull_all_rel_w(a.children@, b.children@, Ok(w.afs), w.kids) && m
                        == (FrameV {
                        left: seq_div(sum_rights(w.afs), a.children@.len() as int),
                        right: None,
                    }),
                    None => pull_all_rel_w(a.children@, b.children@, Err(w.afs), w.kids),
                }
            },
            Processor::Pause(p) => if p.paused {
                b.proc == w.p2 && r is None && b.children@ == a.children@
            } else {
                node_mix_step(a, b, r, w)
            },
            _ => node_mix_step(a, b, r, w),
        }
    }
}

/// The default protocol: pull every child, average the live frames, and
/// transform the average; end when no child is live.
pub open spec fn node_mix_step(a: Node, b: Node, r: Option<FrameV>, w: StepWitness) -> bool
    decreases w, 0nat,
{
    &&& pull_rel_w(a.children@, b.children@, w.fs, w.kids)
    &&& w.cf == (if count_some(w.fs) == 0 {
        None::<FrameV>
    } else {
        Some(frame_div(sum_some(w.fs), count_some(w.fs)))
    })
    &&& match w.cf {
        None => r is None && b.proc == w.p2,
        Some(m) => match r {
            Some(rv) => trans_rel(w.p2, b.proc, m, rv),
            None => false,
        },
    }
}

/// One pull of a node, as a mathematical relation between the node before,
/// the node after, and the frame that came out. Every phase of the pull is
/// deterministic, so the relation pins the new node and the frame
/// completely.
pub open spec fn node_step(a: Node, b: Node, r: Option<FrameV>) -> bool {
    exists|w: StepWitness| node_step_w(a, b, r, w)
}

/// One looped pull of a child yielding a frame: direct, or retried after a
/// reset.
pub open spec fn loop_head(
    c: Node,
    c2: Node,
    f: FrameV,
    kk: (StepWitness, StepWitness),
    flag: bool,
    mid: (Node, Node),
) -> bool {
    if !flag {
        node_step_w(c, c2, Some(f), kk.0)
    } else {
        node_step_w(c, mid.0, None, kk.0) && node_reset(mid.0, mid.1) && node_step_w(
            mid.1,
            c2,
            Some(f),
            kk.1,
        )
    }
}

/// Assemble the pull relation from one step per child.
proof fn lemma_pull_rel_intro(
    cs: Seq<Node>,
    cs2: Seq<Node>,
    fs: Seq<Option<FrameV>>,
    ks: Seq<(StepWitness, StepWitness)>,
)
    requires
        cs2.len() == cs.len(),
        fs.len() == cs.len(),
        ks.len() == cs.len(),
        forall|j: int| 0 <= j < cs.len() ==> #[trigger] node_step_w(cs[j], cs2[j], fs[j], ks[j].0),
    ensures
        pull_rel_w(cs, cs2, fs, ks),
    decreases cs.len(),
{
    if cs.len() > 0 {
        let t1 = cs.subrange(1, cs.len() as int);
        let t2 = cs2.subrange(1, cs2.len() as int);
        let tf = fs.subrange(1, fs.len() as int);
        let tk = ks.subrange(1, ks.len() as int);
        assert forall|j: int| 0 <= j < t1.len() implies #[trigger] node_step_w(
            t1[j],
            t2[j],
            tf[j],
            tk[j].0,
        ) by {
            assert(t1[j] == cs[j + 1]);
            assert(t2[j] == cs2[j + 1]);
            assert(tf[j] == fs[j + 1]);
            assert(tk[j] == ks[j + 1]);
        }
        lemma_pull_rel_intro(t1, t2, tf, tk);
        assert(node_step_w(cs[0], cs2[0], fs[0], ks[0].0));
        assert(pull_rel_w(cs, cs2, fs, ks));
    } else {
        assert(pull_rel_w(cs, cs2, fs, ks));
    }
}

/// Assemble the stop-at-first-end relation when every child produced.
proof fn lemma_pull_all_ok(
    cs: Seq<Node>,
    cs2: Seq<Node>,
    fs: Seq<FrameV>,
    ks: Seq<(StepWitness, StepWitness)>,
)
    requires
        cs2.len() == cs.len(),
        fs.len() == cs.len(),
        ks.len() == cs.len(),
        forall|j: int|
            0 <= j < cs.len() ==> #[trigger] node_step_w(cs[j], cs2[j], Some(fs[j]), ks[j].0),
    ensures
        pull_all_rel_w(cs, cs2, Ok(fs), ks),
    decreases cs.len(),
{
    if cs.len() > 0 {
        let t1 = cs.subrange(1, cs.len() as int);
        let t2 = cs2.subrange(1, cs2.len() as int);
        let tf = fs.subrange(1, fs.len() as int);
        let tk = ks.subrange(1, ks.len() as int);
        assert forall|j: int| 0 <= j < t1.len() implies #[trigger] node_step_w(
            t1[j],
            t2[j],
            Some(tf[j]),
            tk[j].0,
        ) by {
            assert(t1[j] == cs[j + 1]);
            assert(t2[j] == cs2[j + 1]);
            assert(tf[j] == fs[j + 1]);
            assert(tk[j] == ks[j + 1]);
        }
        lemma_pull_all_ok(t1, t2, tf, tk);
        assert(node_step_w(cs[0], cs2[0], Some(fs[0]), ks[0].0));
        assert(pull_all_rel_w(cs, cs2, Ok(fs), ks));
    } else {
        assert(fs =~= Seq::<FrameV>::empty());
        assert(pull_all_rel_w(cs, cs2, Ok(fs), ks));
    }
}

/// Assemble the stop-at-first-end relation when child `k` ended.
proof fn lemma_pull_all_err(
    cs: Seq<Node>,
    cs2: Seq<Node>,
    pre: Seq<FrameV>,
    ks: Seq<(StepWitness, StepWitness)>,
    k: int,
)
    requires
        cs2.len() == cs.len(),
        0 <= k < cs.len(),
        pre.len() == k,
        ks.len() == k + 1,
        forall|j: int|
            0 <= j < k ==> #[trigger] node_step_w(cs[j], cs2[j], Some(pre[j]), ks[j].0),
        node_step_w(cs[k], cs2[k], None, ks[k].0),
        forall|j: int| k < j < cs.len() ==> cs2[j] == cs[j],
    ensures
        pull_all_rel_w(cs, cs2, Err(pre), ks),
    decreases k,
{
    let t1 = cs.subrange(1, cs.len() as int);
    let t2 = cs2.subrange(1, cs2.len() as int);
    if k == 0 {
        assert(t2 =~= t1);
        assert(pull_all_rel_w(cs, cs2, Err(pre), ks));
    } else {
        let tf = pre.subrange(1, pre.len() as int);
        let tk = ks.subrange(1, ks.len() as int);
        assert forall|j: int| 0 <= j < k - 1 implies #[trigger] node_step_w(
            t1[j],
            t2[j],
            Some(tf[j]),
            tk[j].0,
        ) by {
            assert(t1[j] == cs[j + 1]);
            assert(t2[j] == cs2[j + 1]);
            assert(tf[j] == pre[j + 1]);
            assert(tk[j] == ks[j + 1]);
        }
        assert(t1[k - 1] == cs[k]);
        assert(t2[k - 1] == cs2[k]);
        assert(tk[k - 1] == ks[k]);
        assert forall|j: int| k - 1 < j < t1.len() implies t2[j] == t1[j] by {
            assert(t1[j] == cs[j + 1]);
            assert(t2[j] == cs2[j + 1]);
        }
        lemma_pull_all_err(t1, t2, tf, tk, k - 1);
        assert(node_step_w(cs[0], cs2[0], Some(pre[0]), ks[0].0));
        assert(pull_all_rel_w(cs, cs2, Err(pre), ks));
    }
}

/// Assemble the first-live-child relation when child `k` produced the frame.
proof fn lemma_concat_found(
    cs: Seq<Node>,
    cs2: Seq<Node>,
    f: FrameV,
    ks: Seq<(StepWitness, StepWitness)>,
    k: int,
)
    requires
        cs2.len() == cs.len(),
        0 <= k < cs.len(),
        ks.len() == k + 1,
        forall|j: int|
            0 <= j < k ==> #[trigger] node_step_w(cs[j], cs2[j], None::<FrameV>, ks[j].0),
        node_step_w(cs[k], cs2[k], Some(f), ks[k].0),
        forall|j: int| k < j < cs.len() ==> cs2[j] == cs[j],
    ensures
        concat_rel_w(cs, cs2, Some(f), ks),
    decreases k,
{
    let t1 = cs.subrange(1, cs.len() as int);
    let t2 = cs2.subrange(1, cs2.len() as int);
    if k == 0 {
        assert(t2 =~= t1);
        assert(concat_rel_w(cs, cs2, Some(f), ks));
    } else {
        let tk = ks.subrange(1, ks.len() as int);
        assert forall|j: int| 0 <= j < k - 1 implies #[trigger] node_step_w(
            t1[j],
            t2[j],
            None::<FrameV>,
            tk[j].0,
        ) by {
            assert(t1[j] == cs[j + 1]);
            assert(t2[j] == cs2[j + 1]);
            assert(tk[j] == ks[j + 1]);
        }
        assert(t1[k - 1] == cs[k]);
        assert(t2[k - 1] == cs2[k]);
        assert(tk[k - 1] == ks[k]);
        assert forall|j: int| k - 1 < j < t1.len() implies t2[j] == t1[j] by {
            assert(t1[j] == cs[j + 1]);
            assert(t2[j] == cs2[j + 1]);
        }
        lemma_concat_found(t1, t2, f, tk, k - 1);
        assert(node_step_w(cs[0], cs2[0], None::<FrameV>, ks[0].0));
        assert(concat_rel_w(cs, cs2, Some(f), ks));
    }
}

/// Assemble the first-live-child relation when every child has ended.
proof fn lemma_concat_none(cs: Seq<Node>, cs2: Seq<Node>, ks: Seq<(StepWitness, StepWitness)>)
    requires
        cs2.len() == cs.len(),
        ks.len() == cs.len(),
        forall|j: int|
            0 <= j < cs.len() ==> #[trigger] node_step_w(cs[j], cs2[j], None::<FrameV>, ks[j].0),
    ensures
        concat_rel_w(cs, cs2, None::<FrameV>, ks),
    decreases cs.len(),
{
    if cs.len() > 0 {
        let t1 = cs.subrange(1, cs.len() as int);
        let t2 = cs2.subrange(1, cs2.len() as int);
        let tk = ks.subrange(1, ks.len() as int);
        assert forall|j: int| 0 <= j < t1.len() implies #[trigger] node_step_w(
            t1[j],
            t2[j],
            None::<FrameV>,
            tk[j].0,
        ) by {
            assert(t1[j] == cs[j + 1]);
            assert(t2[j] == cs2[j + 1]);
            assert(tk[j] == ks[j + 1]);
        }
        lemma_concat_none(t1, t2, tk);
        assert(node_step_w(cs[0], cs2[0], None::<FrameV>, ks[0].0));
        assert(concat_rel_w(cs, cs2, None::<FrameV>, ks));
    } else {
        assert(concat_rel_w(cs, cs2, None::<FrameV>, ks));
    }
}

/// Assemble the loop relation when every child yielded a frame.
proof fn lemma_loop_ok(
    cs: Seq<Node>,
    cs2: Seq<Node>,
    fs: Seq<FrameV>,
    ks: Seq<(StepWitness, StepWitness)>,
    flags: Seq<bool>,
    mids: Seq<(Node, Node)>,
)
    requires
        cs2.len() == cs.len(),
        fs.len() == cs.len(),
        ks.len() == cs.len(),
        flags.len() == cs.len(),
        mids.len() == cs.len(),
        forall|j: int|
            0 <= j < cs.len() ==> #[trigger] loop_head(
                cs[j],
                cs2[j],
                fs[j],
                ks[j],
                flags[j],
                mids[j],
            ),
    ensures
        loop_rel_w(cs, cs2, Ok(fs), ks, flags, mids),
    decreases cs.len(),
{
    if cs.len() > 0 {
        let t1 = cs.subrange(1, cs.len() as int);
        let t2 = cs2.subrange(1, cs2.len() as int);
        let tf = fs.subrange(1, fs.len() as int);
        let tk = ks.subrange(1, ks.len() as int);
        let tl = flags.subrange(1, flags.len() as int);
        let tm = mids.subrange(1, mids.len() as int);
        assert forall|j: int| 0 <= j < t1.len() implies #[trigger] loop_head(
            t1[j],
            t2[j],
            tf[j],
            tk[j],
            tl[j],
            tm[j],
        ) by {
            assert(t1[j] == cs[j + 1]);
            assert(t2[j] == cs2[j + 1]);
            assert(tf[j] == fs[j + 1]);
            assert(tk[j] == ks[j + 1]);
            assert(tl[j] == flags[j + 1]);
            assert(tm[j] == mids[j + 1]);
        }
        lemma_loop_ok(t1, t2, tf, tk, tl, tm);
        assert(loop_head(cs[0], cs2[0], fs[0], ks[0], flags[0], mids[0]));
        assert(loop_rel_w(cs, cs2, Ok(fs), ks, flags, mids));
    } else {
        assert(loop_rel_w(cs, cs2, Ok(fs), ks, flags, mids));
    }
}

/// Assemble the loop relation when child `k` stayed silent after its reset.
proof fn lemma_loop_err(
    cs: Seq<Node>,
    cs2: Seq<Node>,
    pre: Seq<FrameV>,
    ks: Seq<(StepWitness, StepWitness)>,
    flags: Seq<bool>,
    mids: Seq<(Node, Node)>,
    k: int,
)
    requires
        cs2.len() == cs.len(),
        0 <= k < cs.len(),
        pre.len() == k,
        ks.len() == k + 1,
        flags.len() == k + 1,
        mids.len() == k + 1,
        forall|j: int|
            0 <= j < k ==> #[trigger] loop_head(cs[j], cs2[j], pre[j], ks[j], flags[j], mids[j]),
        flags[k],
        node_step_w(cs[k], mids[k].0, None, ks[k].0),
        node_reset(mids[k].0, mids[k].1),
        node_step_w(mids[k].1, cs2[k], None, ks[k].1),
        forall|j: int| k < j < cs.len() ==> cs2[j] == cs[j],
    ensures
        loop_rel_w(cs, cs2, Err(pre), ks, flags, mids),
    decreases k,
{
    let t1 = cs.subrange(1, cs.len() as int);
    let t2 = cs2.subrange(1, cs2.len() as int);
    if k == 0 {
        assert(t2 =~= t1);
        assert(loop_rel_w(cs, cs2, Err(pre), ks, flags, mids));
    } else {
        let tf = pre.subrange(1, pre.len() as int);
        let tk = ks.subrange(1, ks.len() as int);
        let tl = flags.subrange(1, flags.len() as int);
        let tm = mids.subrange(1, mids.len() as int);
        assert forall|j: int| 0 <= j < k - 1 implies #[trigger] loop_head(
            t1[j],
            t2[j],
            tf[j],
            tk[j],
            tl[j],
            tm[j],
        ) by {
            assert(t1[j] == cs[j + 1]);
            assert(t2[j] == cs2[j + 1]);
            assert(tf[j] == pre[j + 1]);
            assert(tk[j] == ks[j + 1]);
            assert(tl[j] == flags[j + 1]);
            assert(tm[j] == mids[j + 1]);
        }
        assert(t1[k - 1] == cs[k]);
        assert(t2[k - 1] == cs2[k]);
        assert(tk[k - 1] == ks[k]);
        assert(tl[k - 1] == flags[k]);
        assert(tm[k - 1] == mids[k]);
        lemma_loop_err(t1, t2, tf, tk, tl, tm, k - 1);
        assert(loop_head(cs[0], cs2[0], pre[0], ks[0], flags[0], mids[0]));
        assert(loop_rel_w(cs, cs2, Err(pre), ks, flags, mids));
        assert forall|j: int| k - 1 < j < t1.len() implies t2[j] == t1[j] by {
            assert(t1[j] == cs[j + 1]);
            assert(t2[j] == cs2[j + 1]);
        }
    }
}

impl Node {
    /// The root node every graph starts from: a mixer with no children.
    pub fn new_root() -> (r: Node)
        ensures
            r.wf(),
            r.children@.len() == 0,
            r.proc == Processor::Mix(crate::processors::Mix {}),
            r.modulator is None,
    {
        Node {
            children: Vec::new(),
            proc: Processor::Mix(crate::processors::Mix::new()),
            modulator: None,
        }
    }

    /// Append a child carrying the given processor; its index is its
    /// position. Fails when the fan-out cap is reached.
    pub fn add(&mut self, proc: Processor) -> (r: Result<u8, NodeError>)
        requires
            old(self).wf(),
            processor_wf(proc),
        ensures
            final(self).wf(),
            old(self).children@.len() >= 4 ==> r == Result::<u8, NodeError>::Err(
                NodeError::TooManyChildren,
            ) && *final(self) == *old(self),
            old(self).children@.len() < 4 ==> {
                &&& r == Result::<u8, NodeError>::Ok(old(self).children@.len() as u8)
                &&& final(self).children@.len() == old(self).children@.len() + 1
                &&& forall|j: int|
                    0 <= j < old(self).children@.len() ==> final(self).children@[j] == old(
                        self,
                    ).children@[j]
                &&& final(self).children@.last().children@.len() == 0
                &&& final(self).children@.last().proc == proc
                &&& final(self).children@.last().modulator is None
                &&& final(self).proc == old(self).proc
                &&& final(self).modulator == old(self).modulator
            },
    {
        if self.children.len() >= 4 {
            return Err(NodeError::TooManyChildren);
        }
        let child_id = self.children.len() as u8;
        let child = Node { children: Vec::new(), proc, modulator: None };
        assert(child.wf());
        self.children.push(child);
        proof {
            assert forall|i: int| 0 <= i < self.children@.len() implies (
            #[trigger] self.children@[i]).wf() by {
                if i < old(self).children@.len() {
                    assert(self.children@[i] == old(self).children@[i]);
                }
            }
        }
        Ok(child_id)
    }

    /// Reset this node's processor to its initial state.
    pub fn reset(&mut self)
        requires
            old(self).wf(),
        ensures
            final(self).wf(),
            reset_spec(old(self).proc, final(self).proc),
            final(self).children == old(self).children,
            final(self).modulator == old(self).modulator,
    {
        self.proc.reset();
    }

    /// Reset this node's processor and every descendant's.
    pub fn reset_all(&mut self)
        requires
            old(self).wf(),
        ensures
            final(self).wf(),
            reset_all_spec(*old(self), *final(self)),
        decreases old(self).size(), 0nat,
    {
        self.proc.reset();
        let n = self.children.len();
        let mut i: usize = 0;
        while i < n
            invariant
                n == self.children@.len(),
                n == old(self).children@.len(),
                i <= n,
                processor_wf(self.proc),
                reset_spec(old(self).proc, self.proc),
                self.modulator == old(self).modulator,
                match self.modulator {
                    Some(w) => modulator_wf(w.modulator),
                    None => true,
                },
                n <= 4,
                forall|j: int| 0 <= j < n ==> (#[trigger] self.children@[j]).wf(),
                forall|j: int|
                    i <= j < n ==> #[trigger] self.children@[j] == old(self).children@[j],
                forall|j: int|
                    0 <= j < i ==> reset_all_spec(
                        #[trigger] old(self).children@[j],
                        self.children@[j],
                    ),
                forall|j: int|
                    0 <= j < n ==> (#[trigger] self.children@[j]).size() == old(
                        self,
                    ).children@[j].size(),
            decreases n - i,
        {
            proof {
                lemma_nodes_size_element(old(self).children@, i as int);
            }
            let ghost before = self.children@[i as int];
            self.children[i].reset_all();
            proof {
                lemma_reset_all_shape(before, self.children@[i as int]);
                lemma_same_shape_size(before, self.children@[i as int]);
            }
            i = i + 1;
        }
    }

    /// Remove every child; the processor and the modulator stay.
    pub fn clear(&mut self)
        requires
            old(self).wf(),
        ensures
            final(self).wf(),
            final(self).children@.len() == 0,
            final(self).proc == old(self).proc,
            final(self).modulator == old(self).modulator,
    {
        self.children.clear();
    }

    /// Install or replace the modulator binding, with a fresh time counter.
    pub fn modulate(&mut self, param: u8, modulator: Modulator)
        requires
            old(self).wf(),
            modulator_wf(modulator),
        ensures
            final(self).wf(),
            final(self).modulator matches Some(w) && w.param == param && w.modulator == modulator
                && w.time == 0,
            final(self).children == old(self).children,
            final(self).proc == old(self).proc,
    {
        self.modulator = Some(WiredModulator { param, modulator, time: 0 });
    }

    /// Replace the processor; the previous one is dropped.
    pub fn set_behavior(&mut self, proc: Processor)
        requires
            old(self).wf(),
            processor_wf(proc),
        ensures
            final(self).wf(),
            final(self).proc == proc,
            final(self).children == old(self).children,
            final(self).modulator == old(self).modulator,
    {
        self.proc = proc;
    }

    /// Pull one frame from every child, left to right.
    fn pull_frames(children: &mut Vec<Node>) -> (r: (
        Vec<Option<Frame>>,
        Ghost<Seq<(StepWitness, StepWitness)>>,
    ))
        requires
            nodes_wf(old(children)@),
        ensures
            nodes_wf(final(children)@),
            final(children)@.len() == old(children)@.len(),
            forall|j: int|
                0 <= j < old(children)@.len() ==> (#[trigger] old(children)@[j]).same_shape(
                    final(children)@[j],
                ),
            forall|j: int|
                0 <= j < old(children)@.len() ==> (#[trigger] final(children)@[j]).size() == old(
                    children,
                )@[j].size(),
            r.0@.len() == old(children)@.len(),
            pull_rel_w(old(children)@, final(children)@, frames_v(r.0@), r.1@),
        decreases nodes_size(old(children)@), 1nat,
    {
        let n = children.len();
        let mut out: Vec<Option<Frame>> = Vec::new();
        let ghost mut ks: Seq<(StepWitness, StepWitness)> = Seq::empty();
        let mut i: usize = 0;
        while i < n
            invariant
                i <= n,
                n == children@.len(),
                n == old(children)@.len(),
                out@.len() == i,
                ks.len() == i,
                nodes_wf(children@),
                forall|j: int|
                    i <= j < n ==> #[trigger] children@[j] == old(children)@[j],
                forall|j: int|
                    0 <= j < i ==> (#[trigger] old(children)@[j]).same_shape(children@[j]),
                forall|j: int|
                    0 <= j < n ==> (#[trigger] children@[j]).size() == old(children)@[j].size(),
                forall|j: int|
                    0 <= j < i ==> #[trigger] node_step_w(
                        old(children)@[j],
                        children@[j],
                        opt_fv(out@[j]),
                        ks[j].0,
                    ),
            decreases n - i,
        {
            proof {
                lemma_nodes_size_element(old(children)@, i as int);
            }
            let ghost pre = children@[i as int];
            let f = children[i].next_frame();
            proof {
                let w = choose|w: StepWitness|
                    node_step_w(pre, children@[i as int], opt_fv(f), w);
                ks = ks.push((w, w));
            }
            out.push(f);
            i = i + 1;
        }
        proof {
            assert forall|j: int| 0 <= j < n implies #[trigger] node_step_w(
                old(children)@[j],
                children@[j],
                frames_v(out@)[j],
                ks[j].0,
            ) by {
                assert(frames_v(out@)[j] == opt_fv(out@[j]));
            }
            lemma_pull_rel_intro(old(children)@, children@, frames_v(out@), ks);
        }
        (out, Ghost(ks))
    }

    /// Pull one frame from every child, stopping at the first that has
    /// ended.
    fn pull_all(children: &mut Vec<Node>) -> (r: (
        Option<Vec<Frame>>,
        Ghost<Seq<FrameV>>,
        Ghost<Seq<(StepWitness, StepWitness)>>,
    ))
        requires
            nodes_wf(old(children)@),
        ensures
            nodes_wf(final(children)@),
            final(children)@.len() == old(children)@.len(),
            forall|j: int|
                0 <= j < old(children)@.len() ==> (#[trigger] old(children)@[j]).same_shape(
                    final(children)@[j],
                ),
            forall|j: int|
                0 <= j < old(children)@.len() ==> (#[trigger] final(children)@[j]).size() == old(
                    children,
                )@[j].size(),
            r.0 matches Some(fs) ==> (fs@.len() == old(children)@.len() && r.1@ == all_v(fs@)
                && pull_all_rel_w(old(children)@, final(children)@, Ok(r.1@), r.2@)),
            r.0 is None ==> pull_all_rel_w(old(children)@, final(children)@, Err(r.1@), r.2@),
        decreases nodes_size(old(children)@), 1nat,
    {
        let n = children.len();
        let mut out: Vec<Frame> = Vec::new();
        let ghost mut ks: Seq<(StepWitness, StepWitness)> = Seq::empty();
        let mut i: usize = 0;
        while i < n
            invariant
                i <= n,
                n == children@.len(),
                n == old(children)@.len(),
                out@.len() == i,
                ks.len() == i,
                nodes_wf(children@),
                forall|j: int|
                    i <= j < n ==> #[trigger] children@[j] == old(children)@[j],
                forall|j: int|
                    0 <= j < i ==> (#[trigger] old(children)@[j]).same_shape(children@[j]),
                forall|j: int|
                    0 <= j < n ==> (#[trigger] children@[j]).size() == old(children)@[j].size(),
                forall|j: int|
                    0 <= j < i ==> #[trigger] node_step_w(
                        old(children)@[j],
                        children@[j],
                        Some(out@[j]@),
                        ks[j].0,
                    ),
            decreases n - i,
        {
            proof {
                lemma_nodes_size_element(old(children)@, i as int);
            }
            let ghost pre = children@[i as int];
            match children[i].next_frame() {
                Some(f) => {
                    proof {
                        let w = choose|w: StepWitness|
                            node_step_w(pre, children@[i as int], opt_fv(Some(f)), w);
                        ks = ks.push((w, w));
                    }
                    out.push(f);
                },
                None => {
                    proof {
                        let w = choose|w: StepWitness|
                            node_step_w(pre, children@[i as int], opt_fv(None::<Frame>), w);
                        ks = ks.push((w, w));
                        assert forall|j: int| 0 <= j < n implies (
                        #[trigger] old(children)@[j]).same_shape(children@[j]) by {
                            if children@[j] == old(children)@[j] {
                                lemma_same_shape_refl(children@[j]);
                            }
                        }
                        assert forall|j: int| 0 <= j < i implies #[trigger] node_step_w(
                            old(children)@[j],
                            children@[j],
                            Some(all_v(out@)[j]),
                            ks[j].0,
                        ) by {
                            assert(all_v(out@)[j] == out@[j]@);
                            assert(node_step_w(
                                old(children)@[j],
                                children@[j],
                                Some(out@[j]@),
                                ks[j].0,
                            ));
                        }
                        lemma_pull_all_err(
                            old(children)@,
                            children@,
                            all_v(out@),
                            ks,
                            i as int,
                        );
                    }
                    return (None, Ghost(all_v(out@)), Ghost(ks));
                },
            }
            i = i + 1;
        }
        proof {
            assert forall|j: int| 0 <= j < n implies #[trigger] node_step_w(
                old(children)@[j],
                children@[j],
                Some(all_v(out@)[j]),
                ks[j].0,
            ) by {
                assert(all_v(out@)[j] == out@[j]@);
                assert(node_step_w(old(children)@[j], children@[j], Some(out@[j]@), ks[j].0));
            }
            lemma_pull_all_ok(old(children)@, children@, all_v(out@), ks);
        }
        (Some(out), Ghost(all_v(out@)), Ghost(ks))
    }

    /// Emit the frame of the first child that still produces one.
    fn concat_pull(children: &mut Vec<Node>) -> (r: (
        Option<Frame>,
        Ghost<Seq<(StepWitness, StepWitness)>>,
    ))
        requires
            nodes_wf(old(children)@),
        ensures
            nodes_wf(final(children)@),
            final(children)@.len() == old(children)@.len(),
            forall|j: int|
                0 <= j < old(children)@.len() ==> (#[trigger] old(children)@[j]).same_shape(
                    final(children)@[j],
                ),
            forall|j: int|
                0 <= j < old(children)@.len() ==> (#[trigger] final(children)@[j]).size() == old(
                    children,
                )@[j].size(),
            concat_rel_w(old(children)@, final(children)@, opt_fv(r.0), r.1@),
        decreases nodes_size(old(children)@), 1nat,
    {
        let n = children.len();
        let ghost mut ks: Seq<(StepWitness, StepWitness)> = Seq::empty();
        let mut i: usize = 0;
        while i < n
            invariant
                i <= n,
                n == children@.len(),
                n == old(children)@.len(),
                ks.len() == i,
                nodes_wf(children@),
                forall|j: int|
                    i <= j < n ==> #[trigger] children@[j] == old(children)@[j],
                forall|j: int|
                    0 <= j < i ==> (#[trigger] old(children)@[j]).same_shape(children@[j]),
                forall|j: int|
                    0 <= j < n ==> (#[trigger] children@[j]).size() == old(children)@[j].size(),
                forall|j: int|
                    0 <= j < i ==> #[trigger] node_step_w(
                        old(children)@[j],
                        children@[j],
                        None::<FrameV>,
                        ks[j].0,
                    ),
            decreases n - i,
        {
            proof {
                lemma_nodes_size_element(old(children)@, i as int);
            }
            let ghost pre = children@[i as int];
            match children[i].next_frame() {
                Some(f) => {
                    proof {
                        let w = choose|w: StepWitness|
                            node_step_w(pre, children@[i as int], opt_fv(Some(f)), w);
                        ks = ks.push((w, w));
                        assert forall|j: int| 0 <= j < n implies (
                        #[trigger] old(children)@[j]).same_shape(children@[j]) by {
                            if children@[j] == old(children)@[j] {
                                lemma_same_shape_refl(children@[j]);
                            }
                        }
                        lemma_concat_found(old(children)@, children@, f@, ks, i as int);
                    }
                    return (Some(f), Ghost(ks));
                },
                None => {
                    proof {
                        let w = choose|w: StepWitness|
                            node_step_w(pre, children@[i as int], opt_fv(None::<Frame>), w);
                        ks = ks.push((w, w));
                    }
                },
            }
            i = i + 1;
        }
        proof {
            lemma_concat_none(old(children)@, children@, ks);
        }
        (None, Ghost(ks))
    }

    /// Pull from every child, resetting and retrying a child that has
    /// ended; when one still yields nothing, stop. Emits the average.
    fn loop_pull(children: &mut Vec<Node>) -> (r: (
        Option<Frame>,
        Ghost<Seq<FrameV>>,
        Ghost<Seq<(StepWitness, StepWitness)>>,
        Ghost<Seq<bool>>,
        Ghost<Seq<(Node, Node)>>,
    ))
        requires
            nodes_wf(old(children)@),
            old(children)@.len() <= 4,
        ensures
            nodes_wf(final(children)@),
            final(children)@.len() == old(children)@.len(),
            forall|j: int|
                0 <= j < old(children)@.len() ==> (#[trigger] old(children)@[j]).same_shape(
                    final(children)@[j],
                ),
            forall|j: int|
                0 <= j < old(children)@.len() ==> (#[trigger] final(children)@[j]).size() == old(
                    children,
                )@[j].size(),
            old(children)@.len() == 0 ==> (r.0 is None && final(children)@ == old(children)@),
            old(children)@.len() > 0 ==> (r.0 matches Some(f) ==> (loop_rel_w(
                old(children)@,
                final(children)@,
                Ok(r.1@),
                r.2@,
                r.3@,
                r.4@,
            ) && f@ == frame_div(sum_all(r.1@), old(children)@.len() as int))),
            (old(children)@.len() > 0 && r.0 is None) ==> loop_rel_w(
                old(children)@,
                final(children)@,
                Err(r.1@),
                r.2@,
                r.3@,
                r.4@,
            ),
        decreases nodes_size(old(children)@), 1nat,
    {
        let n = children.len();
        let ghost mut gfs: Seq<FrameV> = Seq::empty();
        let ghost mut ks: Seq<(StepWitness, StepWitness)> = Seq::empty();
        let ghost mut gflags: Seq<bool> = Seq::empty();
        let ghost mut gmids: Seq<(Node, Node)> = Seq::empty();
        if n == 0 {
            return (None, Ghost(gfs), Ghost(ks), Ghost(gflags), Ghost(gmids));
        }
        let mut acc = Frame::zero();
        let mut i: usize = 0;
        while i < n
            invariant
                i <= n,
                n == children@.len(),
                n == old(children)@.len(),
                gfs.len() == i,
                ks.len() == i,
                gflags.len() == i,
                gmids.len() == i,
                acc@ == sum_all(gfs),
                nodes_wf(children@),
                forall|j: int|
                    i <= j < n ==> #[trigger] children@[j] == old(children)@[j],
                forall|j: int|
                    0 <= j < i ==> (#[trigger] old(children)@[j]).same_shape(children@[j]),
                forall|j: int|
                    0 <= j < n ==> (#[trigger] children@[j]).size() == old(children)@[j].size(),
                forall|j: int|
                    0 <= j < i ==> #[trigger] loop_head(
                        old(children)@[j],
                        children@[j],
                        gfs[j],
                        ks[j],
                        gflags[j],
                        gmids[j],
                    ),
            decreases n - i,
        {
            proof {
                lemma_nodes_size_element(old(children)@, i as int);
            }
            let ghost c0 = children@[i as int];
            let f = match children[i].next_frame() {
                Some(f) => {
                    proof {
                        let w = choose|w: StepWitness|
                            node_step_w(c0, children@[i as int], opt_fv(Some(f)), w);
                        ks = ks.push((w, w));
                        gflags = gflags.push(false);
                        gmids = gmids.push((c0, c0));
                    }
                    f
                },
                None => {
                    let ghost c1 = children@[i as int];
                    let ghost w1 = choose|w: StepWitness|
                        node_step_w(c0, c1, opt_fv(None::<Frame>), w);
                    children[i].reset();
                    let ghost c2 = children@[i as int];
                    proof {
                        lemma_same_children_shape(c1, c2);
                        lemma_same_shape_trans(c0, c1, c2);
                        lemma_same_shape_size(c1, c2);
                    }
                    match children[i].next_frame() {
                        Some(f) => {
                            proof {
                                let w2 = choose|w: StepWitness|
                                    node_step_w(c2, children@[i as int], opt_fv(Some(f)), w);
                                ks = ks.push((w1, w2));
                                gflags = gflags.push(true);
                                gmids = gmids.push((c1, c2));
                                lemma_shape_chain_close(c0, c2, children@[i as int]);
                            }
                            f
                        },
                        None => {
                            proof {
                                let w2 = choose|w: StepWitness|
                                    node_step_w(c2, children@[i as int], opt_fv(None::<Frame>), w);
                                ks = ks.push((w1, w2));
                                gflags = gflags.push(true);
                                gmids = gmids.push((c1, c2));
                                lemma_shape_chain_close(c0, c2, children@[i as int]);
                                assert forall|j: int| 0 <= j < n implies (
                                #[trigger] old(children)@[j]).same_shape(children@[j]) by {
                                    if children@[j] == old(children)@[j] {
                                        lemma_same_shape_refl(children@[j]);
                                    }
                                }
                                lemma_loop_err(
                                    old(children)@,
                                    children@,
                                    gfs,
                                    ks,
                                    gflags,
                                    gmids,
                                    i as int,
                                );
                            }
                            return (None, Ghost(gfs), Ghost(ks), Ghost(gflags), Ghost(gmids));
                        },
                    }
                },
            };
            proof {
                assert(sum_all(gfs.push(f@)) == frame_add(sum_all(gfs), f@)) by {
                    assert(gfs.push(f@).drop_last() =~= gfs);
                    assert(gfs.push(f@).last() == f@);
                }
                gfs = gfs.push(f@);
            }
            acc = acc.add(&f);
            i = i + 1;
        }
        proof {
            lemma_loop_ok(old(children)@, children@, gfs, ks, gflags, gmids);
        }
        let out = acc.div_count(n as u32);
        (Some(out), Ghost(gfs), Ghost(ks), Ghost(gflags), Ghost(gmids))
    }

    /// Pull the node's next frame: apply the modulation step, then the
    /// processor's combine protocol over the children, then its transform.
    /// The `node_step` clause pins the whole pull: the new node state and
    /// the frame are exactly what the step relation demands.
    pub fn next_frame(&mut self) -> (r: Option<Frame>)
        requires
            old(self).wf(),
        ensures
            final(self).wf(),
            old(self).same_shape(*final(self)),
            final(self).size() == old(self).size(),
            node_step(*old(self), *final(self), opt_fv(r)),
        decreases old(self).size(), 0nat,
    {
        match &mut self.modulator {
            Some(w) => {
                if w.time % 735 == 0 {
                    let val = w.modulator.get(w.time);
                    self.proc.set(w.param, val);
                }
                w.time = w.time.wrapping_add(8);
            },
            None => {},
        }
        let ghost p2 = self.proc;
        proof {
            assert(mod_phase(*old(self), p2, self.modulator));
        }
        let generated: Option<Option<Frame>> = match &mut self.proc {
            Processor::Empty(_) => Some(None),
            Processor::Zero(z) => Some(Some(z.next_block())),
            Processor::Sine(o) => Some(Some(o.next_block())),
            Processor::Square(o) => Some(Some(o.next_block())),
            Processor::Sawtooth(o) => Some(Some(o.next_block())),
            Processor::Triangle(o) => Some(Some(o.next_block())),
            Processor::Noise(ns) => Some(Some(ns.next_block())),
            Processor::Pcm(pc) => Some(pc.next_block()),
            _ => None,
        };
        match generated {
            Some(res) => {
                proof {
                    lemma_same_children_shape(*old(self), *self);
                    lemma_same_shape_size(*old(self), *self);
                    assert(is_source(p2));
                    assert(gen_rel(p2, self.proc, opt_fv(res)));
                    let w = StepWitness {
                        p2,
                        cf: None,
                        fs: Seq::empty(),
                        afs: Seq::empty(),
                        flags: Seq::empty(),
                        mids: Seq::empty(),
                        kids: Seq::empty(),
                    };
                    assert(node_step_w(*old(self), *self, opt_fv(res), w));
                    assert(node_step(*old(self), *self, opt_fv(res)));
                }
                return res;
            },
            None => {},
        }
        proof {
            assert(!is_source(p2));
        }
        let ghost mut wfs: Seq<Option<FrameV>> = Seq::empty();
        let ghost mut wafs: Seq<FrameV> = Seq::empty();
        let ghost mut wflags: Seq<bool> = Seq::empty();
        let ghost mut wmids: Seq<(Node, Node)> = Seq::empty();
        let ghost mut wkids: Seq<(StepWitness, StepWitness)> = Seq::empty();
        let combined: Option<Frame> = match &self.proc {
            Processor::Concat(_) => {
                let (c, Ghost(ks)) = Self::concat_pull(&mut self.children);
                proof {
                    wkids = ks;
                }
                c
            },
            Processor::Loop(_) => {
                let (c, Ghost(afs), Ghost(ks), Ghost(fl), Ghost(md)) = Self::loop_pull(
                    &mut self.children,
                );
                proof {
                    wafs = afs;
                    wkids = ks;
                    wflags = fl;
                    wmids = md;
                }
                c
            },
            Processor::AllForOne(_) => {
                if self.children.len() == 0 {
                    None
                } else {
                    let (o, Ghost(afs), Ghost(ks)) = Self::pull_all(&mut self.children);
                    proof {
                        wafs = afs;
                        wkids = ks;
                    }
                    match o {
                        Some(fs) => Some(avg_all(&fs)),
                        None => None,
                    }
                }
            },
            Processor::TakeLeft(_) => {
                if self.children.len() == 0 {
                    None
                } else {
                    let (o, Ghost(afs), Ghost(ks)) = Self::pull_all(&mut self.children);
                    proof {
                        wafs = afs;
                        wkids = ks;
                    }
                    match o {
                        Some(fs) => Some(take_left_mono(&fs)),
                        None => None,
                    }
                }
            },
            Processor::TakeRight(_) => {
                if self.children.len() == 0 {
                    None
                } else {
                    let (o, Ghost(afs), Ghost(ks)) = Self::pull_all(&mut self.children);
                    proof {
                        wafs = afs;
                        wkids = ks;
                    }
                    match o {
                        Some(fs) => Some(take_right_mono(&fs)),
                        None => None,
                    }
                }
            },
            Processor::Pause(p) => {
                if p.paused {
                    None
                } else {
                    let (fsv, Ghost(ks)) = Self::pull_frames(&mut self.children);
                    proof {
                        wfs = frames_v(fsv@);
                        wkids = ks;
                    }
                    mix_frames(&fsv)
                }
            },
            _ => {
                let (fsv, Ghost(ks)) = Self::pull_frames(&mut self.children);
                proof {
                    wfs = frames_v(fsv@);
                    wkids = ks;
                }
                mix_frames(&fsv)
            },
        };
        proof {
            assert forall|j: int| 0 <= j < old(self).children@.len() implies (
            #[trigger] old(self).children@[j]).same_shape(self.children@[j]) by {
                if self.children@[j] == old(self).children@[j] {
                    lemma_same_shape_refl(self.children@[j]);
                }
            }
            assert(old(self).same_shape(*self));
            lemma_same_shape_size(*old(self), *self);
        }
        let ghost mid = *self;
        let f = match combined {
            Some(f) => f,
            None => {
                proof {
                    let w = StepWitness {
                        p2,
                        cf: None,
                        fs: wfs,
                        afs: wafs,
                        flags: wflags,
                        mids: wmids,
                        kids: wkids,
                    };
                    match p2 {
                        Processor::Concat(_) => {
                            assert(concat_rel_w(
                                old(self).children@,
                                self.children@,
                                None::<FrameV>,
                                wkids,
                            ));
                        },
                        Processor::Loop(_) => {
                            if old(self).children@.len() > 0 {
                                assert(loop_rel_w(
                                    old(self).children@,
                                    self.children@,
                                    Err(wafs),
                                    wkids,
                                    wflags,
                                    wmids,
                                ));
                            } else {
                                assert(self.children@ == old(self).children@);
                            }
                        },
                        Processor::AllForOne(_) | Processor::TakeLeft(_)
                            | Processor::TakeRight(_) => {
                            if old(self).children@.len() > 0 {
                                assert(pull_all_rel_w(
                                    old(self).children@,
                                    self.children@,
                                    Err(wafs),
                                    wkids,
                                ));
                            } else {
                                assert(self.children@ == old(self).children@);
                            }
                        },
                        Processor::Pause(p) => {
                            if p.paused {
                                assert(self.children@ == old(self).children@);
                            } else {
                                lemma_count_some_nonneg(wfs);
                                assert(count_some(wfs) == 0);
                                assert(node_mix_step(*old(self), *self, None::<FrameV>, w));
                            }
                        },
                        _ => {
                            lemma_count_some_nonneg(wfs);
                            assert(count_some(wfs) == 0);
                            assert(node_mix_step(*old(self), *self, None::<FrameV>, w));
                        },
                    }
                    assert(node_step_w(*old(self), *self, opt_fv(None::<Frame>), w));
                    assert(node_step(*old(self), *self, opt_fv(None::<Frame>)));
                }
                return None;
            },
        };
        let out: Frame = match &mut self.proc {
            Processor::Gain(g) => g.process_frame(&f),
            Processor::Pan(p) => p.process_frame(&f),
            Processor::Mute(m) => m.process_frame(&f),
            Processor::FadeIn(fd) => fd.process_frame(&f),
            Processor::Swap(s) => s.process_frame(&f),
            Processor::OneDelay(d) => d.process_frame(f),
            Processor::Delay(d) => d.process_frame(f),
            Processor::LowHighPass(lf) => {
                let left = lf.process_sample(&f.left);
                let right = match &f.right {
                    Some(rt) => Some(lf.process_sample(rt)),
                    None => None,
                };
                Frame { left, right }
            },
            Processor::TrackPosition(t) => {
                t.elapsed = t.elapsed.wrapping_add(8);
                f
            },
            _ => f,
        };
        proof {
            assert(self.children == mid.children);
            assert(old(self).same_shape(*self));
            lemma_same_shape_size(*old(self), *self);
            let w = StepWitness {
                p2,
                cf: Some(f@),
                fs: wfs,
                afs: wafs,
                flags: wflags,
                mids: wmids,
                kids: wkids,
            };
            match p2 {
                Processor::Concat(_) => {
                    assert(out == f);
                    assert(concat_rel_w(
                        old(self).children@,
                        self.children@,
                        Some(f@),
                        wkids,
                    ));
                },
                Processor::Loop(_) => {
                    assert(out == f);
                    assert(loop_rel_w(
                        old(self).children@,
                        self.children@,
                        Ok(wafs),
                        wkids,
                        wflags,
                        wmids,
                    ));
                    assert(f@ == frame_div(sum_all(wafs), old(self).children@.len() as int));
                },
                Processor::AllForOne(_) | Processor::TakeLeft(_) | Processor::TakeRight(_) => {
                    assert(out == f);
                    assert(pull_all_rel_w(
                        old(self).children@,
                        self.children@,
                        Ok(wafs),
                        wkids,
                    ));
                },
                _ => {
                    lemma_count_some_nonneg(wfs);
                    assert(count_some(wfs) > 0);
                    assert(f@ == frame_div(sum_some(wfs), count_some(wfs)));
                    assert(trans_rel(p2, self.proc, f@, out@));
                    assert(node_mix_step(*old(self), *self, Some(out@), w));
                },
            }
            assert(node_step_w(*old(self), *self, opt_fv(Some(out)), w));
            assert(node_step(*old(self), *self, opt_fv(Some(out))));
        }
        Some(out)
    }
}

/// An operation the graph manager applies to the node a path names.
pub enum NodeOp {
    Reset,
    ResetAll,
    SetBehavior(Processor),
    Modulate(u8, Modulator),
    Clear,
}

pub open spec fn op_wf(op: NodeOp) -> bool {
    match op {
        NodeOp::SetBehavior(p) => processor_wf(p),
        NodeOp::Modulate(_, m) => modulator_wf(m),
        _ => true,
    }
}

/// What each operation does to the node it targets.
pub open spec fn op_applied(a: Node, b: Node, op: NodeOp) -> bool {
    match op {
        NodeOp::Reset => reset_spec(a.proc, b.proc) && b.children@ == a.children@ && b.modulator
            == a.modulator,
        NodeOp::ResetAll => reset_all_spec(a, b),
        NodeOp::SetBehavior(p) => b.proc == p && b.children@ == a.children@ && b.modulator
            == a.modulator,
        NodeOp::Modulate(param, m) => (b.modulator matches Some(w) && w.param == param
            && w.modulator == m && w.time == 0) && b.children@ == a.children@ && b.proc == a.proc,
        NodeOp::Clear => b.children@.len() == 0 && b.proc == a.proc && b.modulator == a.modulator,
    }
}

/// The operation was applied to the node the path names from index `i`, and
/// nothing else changed.
pub open spec fn op_applied_at(a: Node, b: Node, path: Seq<u8>, i: int, op: NodeOp) -> bool
    decreases path.len() - i,
{
    if i < 0 || i >= path.len() {
        op_applied(a, b, op)
    } else {
        &&& b.proc == a.proc
        &&& b.modulator == a.modulator
        &&& b.children@.len() == a.children@.len()
        &&& path[i] < a.children@.len()
        &&& forall|j: int|
            0 <= j < a.children@.len() && j != path[i] ==> b.children@[j] == a.children@[j]
        &&& op_applied_at(
            a.children@[path[i] as int],
            b.children@[path[i] as int],
            path,
            i + 1,
            op,
        )
    }
}

/// Every operation except clearing keeps the tree's shape.
pub proof fn lemma_op_keeps_shape(a: Node, b: Node, path: Seq<u8>, i: int, op: NodeOp)
    requires
        op_applied_at(a, b, path, i, op),
        !(op is Clear),
    ensures
        a.same_shape(b),
    decreases path.len() - i,
{
    if i < 0 || i >= path.len() {
        match op {
            NodeOp::ResetAll => {
                lemma_reset_all_shape(a, b);
            },
            _ => {
                assert(a.children@ == b.children@);
                assert forall|k: int| 0 <= k < a.children@.len() implies (
                #[trigger] a.children@[k]).same_shape(b.children@[k]) by {
                    lemma_same_shape_refl(a.children@[k]);
                }
            },
        }
    } else {
        lemma_op_keeps_shape(
            a.children@[path[i] as int],
            b.children@[path[i] as int],
            path,
            i + 1,
            op,
        );
        assert forall|k: int| 0 <= k < a.children@.len() implies (
        #[trigger] a.children@[k]).same_shape(b.children@[k]) by {
            if k != path[i] as int {
                lemma_same_shape_refl(a.children@[k]);
            }
        }
    }
}

/// A path strictly extends another, both read from index `i`.
pub open spec fn strictly_extends(q: Seq<u8>, path: Seq<u8>, i: int) -> bool {
    q.len() > path.len() && forall|j: int| i <= j < path.len() ==> q[j] == path[j]
}

/// Clearing a subtree keeps every path resolvable that does not lead
/// strictly into the cleared subtree.
pub proof fn lemma_clear_resolves(a: Node, b: Node, path: Seq<u8>, i: int, q: Seq<u8>)
    requires
        op_applied_at(a, b, path, i, NodeOp::Clear),
        a.resolves(q, i),
        !strictly_extends(q, path, i),
    ensures
        b.resolves(q, i),
    decreases q.len() - i,
{
    if i < 0 || i >= q.len() {
    } else {
        if i >= path.len() {
            assert(q.len() > path.len());
            assert(strictly_extends(q, path, i));
        } else {
            if q[i] == path[i] {
                lemma_clear_resolves(
                    a.children@[path[i] as int],
                    b.children@[path[i] as int],
                    path,
                    i + 1,
                    q,
                );
            } else {
                assert(b.children@[q[i] as int] == a.children@[q[i] as int]);
            }
        }
    }
}

/// The cleared node itself still resolves.
pub proof fn lemma_clear_target_resolves(a: Node, b: Node, path: Seq<u8>, i: int)
    requires
        op_applied_at(a, b, path, i, NodeOp::Clear),
        a.resolves(path, i),
    ensures
        b.resolves(path, i),
    decreases path.len() - i,
{
    if 0 <= i < path.len() {
        lemma_clear_target_resolves(
            a.children@[path[i] as int],
            b.children@[path[i] as int],
            path,
            i + 1,
        );
    }
}

impl Node {
    /// Apply an operation to the node the path names, descending from
    /// index `i`.
    pub fn op_at(&mut self, path: &Vec<u8>, i: usize, op: NodeOp)
        requires
            old(self).wf(),
            op_wf(op),
            old(self).resolves(path@, i as int),
            i <= path@.len(),
        ensures
            final(self).wf(),
            op_applied_at(*old(self), *final(self), path@, i as int, op),
        decreases path@.len() - i,
    {
        if i >= path.len() {
            match op {
                NodeOp::Reset => {
                    self.reset();
                },
                NodeOp::ResetAll => {
                    self.reset_all();
                },
                NodeOp::SetBehavior(p) => {
                    self.set_behavior(p);
                },
                NodeOp::Modulate(param, m) => {
                    self.modulate(param, m);
                },
                NodeOp::Clear => {
                    self.clear();
                },
            }
        } else {
            let k = path[i] as usize;
            self.children[k].op_at(path, i + 1, op);
            proof {
                assert forall|j: int| 0 <= j < self.children@.len() implies (
                #[trigger] self.children@[j]).wf() by {
                    if j != k as int {
                        assert(self.children@[j] == old(self).children@[j]);
                    }
                }
            }
        }
    }

    /// Add a child under the node the path names, descending from index
    /// `i`; the new child's index within its parent is returned.
    pub fn add_at(&mut self, path: &Vec<u8>, i: usize, proc: Processor) -> (r: Result<
        u8,
        NodeError,
    >)
        requires
            old(self).wf(),
            processor_wf(proc),
            old(self).resolves(path@, i as int),
            i <= path@.len(),
        ensures
            final(self).wf(),
            added_at(*old(self), *final(self), path@, i as int, proc, r),
        decreases path@.len() - i,
    {
        if i >= path.len() {
            self.add(proc)
        } else {
            let k = path[i] as usize;
            let r = self.children[k].add_at(path, i + 1, proc);
            proof {
                assert forall|j: int| 0 <= j < self.children@.len() implies (
                #[trigger] self.children@[j]).wf() by {
                    if j != k as int {
                        assert(self.children@[j] == old(self).children@[j]);
                    }
                }
            }
            r
        }
    }
}

/// A child was added to the node the path names from index `i`: the new
/// leaf sits at the end of its parent's children, or the fan-out error came
/// back and nothing changed.
pub open spec fn added_at(
    a: Node,
    b: Node,
    path: Seq<u8>,
    i: int,
    proc: Processor,
    r: Result<u8, NodeError>,
) -> bool
    decreases path.len() - i,
{
    if i < 0 || i >= path.len() {
        if a.children@.len() >= 4 {
            r == Result::<u8, NodeError>::Err(NodeError::TooManyChildren) && b == a
        } else {
            &&& r == Result::<u8, NodeError>::Ok(a.children@.len() as u8)
            &&& b.children@.len() == a.children@.len() + 1
            &&& forall|j: int| 0 <= j < a.children@.len() ==> b.children@[j] == a.children@[j]
            &&& b.children@.last().children@.len() == 0
            &&& b.children@.last().proc == proc
            &&& b.children@.last().modulator is None
            &&& b.proc == a.proc
            &&& b.modulator == a.modulator
        }
    } else {
        &&& b.proc == a.proc
        &&& b.modulator == a.modulator
        &&& b.children@.len() == a.children@.len()
        &&& path[i] < a.children@.len()
        &&& forall|j: int|
            0 <= j < a.children@.len() && j != path[i] ==> b.children@[j] == a.children@[j]
        &&& added_at(a.children@[path[i] as int], b.children@[path[i] as int], path, i + 1, proc, r)
    }
}

/// The node a path names, read from index `i`.
pub open spec fn node_at(n: Node, path: Seq<u8>, i: int) -> Node
    recommends
        n.resolves(path, i),
    decreases path.len() - i,
{
    if i < 0 || i >= path.len() {
        n
    } else {
        node_at(n.children@[path[i] as int], path, i + 1)
    }
}

/// Whether an add succeeds, and the index it returns, are decided by the
/// child count of the node the path names.
pub proof fn lemma_added_result(
    a: Node,
    b: Node,
    path: Seq<u8>,
    i: int,
    proc: Processor,
    r: Result<u8, NodeError>,
)
    requires
        added_at(a, b, path, i, proc, r),
    ensures
        node_at(a, path, i).children@.len() >= 4 ==> r == Result::<u8, NodeError>::Err(
            NodeError::TooManyChildren,
        ),
        node_at(a, path, i).children@.len() < 4 ==> r == Result::<u8, NodeError>::Ok(
            node_at(a, path, i).children@.len() as u8,
        ),
    decreases path.len() - i,
{
    if 0 <= i < path.len() {
        lemma_added_result(
            a.children@[path[i] as int],
            b.children@[path[i] as int],
            path,
            i + 1,
            proc,
            r,
        );
    }
}

/// A successful add keeps every already resolvable path resolvable.
pub proof fn lemma_add_resolves(
    a: Node,
    b: Node,
    path: Seq<u8>,
    i: int,
    proc: Processor,
    r: Result<u8, NodeError>,
    q: Seq<u8>,
)
    requires
        added_at(a, b, path, i, proc, r),
        a.resolves(q, i),
    ensures
        b.resolves(q, i),
    decreases q.len() - i,
{
    if i < 0 || i >= q.len() {
    } else {
        if i >= path.len() {
            if a.children@.len() >= 4 {
            } else {
                assert(b.children@[q[i] as int] == a.children@[q[i] as int]);
            }
        } else {
            if q[i] == path[i] {
                lemma_add_resolves(
                    a.children@[path[i] as int],
                    b.children@[path[i] as int],
                    path,
                    i + 1,
                    proc,
                    r,
                    q,
                );
            } else {
                assert(b.children@[q[i] as int] == a.children@[q[i] as int]);
            }
        }
    }
}

/// After a successful add under the path, the path extended by the new
/// index resolves.
pub proof fn lemma_add_new_path(
    a: Node,
    b: Node,
    path: Seq<u8>,
    i: int,
    proc: Processor,
    idx: u8,
)
    requires
        added_at(a, b, path, i, proc, Result::<u8, NodeError>::Ok(idx)),
        a.resolves(path, i),
        0 <= i <= path.len(),
    ensures
        b.resolves(path.push(idx), i),
    decreases path.len() - i,
{
    let q = path.push(idx);
    if i >= path.len() {
        assert(q[i] == idx);
        assert(idx as int == a.children@.len());
        assert(q[i] < b.children@.len());
        assert(b.children@[q[i] as int] == b.children@.last());
        assert(b.children@.last().resolves(q, i + 1));
    } else {
        lemma_add_new_path(
            a.children@[path[i] as int],
            b.children@[path[i] as int],
            path,
            i + 1,
            proc,
            idx,
        );
        assert(q[i] == path[i]);
    }
}

/// A failed add leaves the tree's shape unchanged.
pub proof fn lemma_add_err_shape(
    a: Node,
    b: Node,
    path: Seq<u8>,
    i: int,
    proc: Processor,
    e: NodeError,
)
    requires
        added_at(a, b, path, i, proc, Result::<u8, NodeError>::Err(e)),
    ensures
        a.same_shape(b),
    decreases path.len() - i,
{
    if i < 0 || i >= path.len() {
        lemma_same_shape_refl(a);
        assert(b == a);
    } else {
        lemma_add_err_shape(
            a.children@[path[i] as int],
            b.children@[path[i] as int],
            path,
            i + 1,
            proc,
            e,
        );
        assert forall|k: int| 0 <= k < a.children@.len() implies (
        #[trigger] a.children@[k]).same_shape(b.children@[k]) by {
            if k != path[i] as int {
                lemma_same_shape_refl(a.children@[k]);
            }
        }
    }
}

/// Nodes with equal children have the same shape.
pub proof fn lemma_same_children_shape(a: Node, b: Node)
    requires
        a.children == b.children,
    ensures
        a.same_shape(b),
{
    assert forall|i: int| 0 <= i < a.children@.len() implies (
    #[trigger] a.children@[i]).same_shape(b.children@[i]) by {
        lemma_same_shape_refl(a.children@[i]);
    }
}

/// Close a chain of two shape steps on one child.
pub proof fn lemma_shape_chain_close(a: Node, b: Node, c: Node)
    requires
        a.same_shape(b),
        b.same_shape(c),
    ensures
        a.same_shape(c),
        a.size() == c.size(),
{
    lemma_same_shape_trans(a, b, c);
    lemma_same_shape_size(a, c);
}

} // verus!
