//! The engine's algebraic laws, stated and proved once and for all.
//!
//! Each law here holds for every input its parameters admit; the concrete
//! numeric checks live in the test suite.

use vstd::prelude::*;

use crate::manager::{manager_wf, Manager};
use crate::node::{
    count_some, node_mix_step, node_step, node_step_w, sum_lefts, sum_rights, sum_some,
    zero_frame, Node, StepWitness,
};
use crate::num::{clamp32, div_trunc, lemma_div_trunc_cancel, lemma_div_trunc_one, scale_lane};
use crate::processor::Processor;
use crate::processors::{
    delay_wf, fade_gain, lemma_fade_gain_bounds, swap_frame, Delay, OneDelay,
};
use crate::sample::{
    frame_add, frame_div, frame_scale, seq_add, seq_div, seq_scale, seq_zero, Frame, FrameV,
};
use crate::sources::phase_after;

verus! {

/// The graph manager's standing invariants: the path table never exceeds
/// the node cap and always maps identifier zero to the empty path, every
/// table entry resolves to a node of the tree, and the output stager holds
/// a suspended frame exactly when part of it has been emitted.
pub proof fn lemma_manager_invariants(m: Manager)
    requires
        manager_wf(m),
    ensures
        m.root.wf(),
        1 <= m.paths@.len() <= 32,
        m.paths@[0]@.len() == 0,
        forall|i: int| 0 <= i < m.paths@.len() ==> m.root.resolves((#[trigger] m.paths@[i])@, 0),
        m.prev is Some <==> 0 < m.consumed < 16,
{
}

/// An oscillator's phase after `k` samples is its start plus `k` steps,
/// modulo one full turn of ticks.
pub proof fn lemma_phase_after_closed(p: int, s: int, k: nat)
    requires
        0 <= p < 44_100_000_000,
        0 <= s < 44_100_000_000,
    ensures
        phase_after(p, s, k) == (p + k * s) % 44_100_000_000,
    decreases k,
{
    let m = 44_100_000_000int;
    if k == 0 {
        assert(k * s == 0) by (nonlinear_arith)
            requires
                k == 0,
        ;
        vstd::arithmetic::div_mod::lemma_small_mod(p as nat, m as nat);
    } else {
        lemma_phase_after_closed(p, s, (k - 1) as nat);
        assert(k * s == (k - 1) * s + s) by (nonlinear_arith);
        assert(0 <= (k - 1) * s) by (nonlinear_arith)
            requires
                k >= 1,
                s >= 0,
        ;
        vstd::arithmetic::div_mod::lemma_small_mod(s as nat, m as nat);
        vstd::arithmetic::div_mod::lemma_add_mod_noop(p + (k - 1) * s, s, m);
        vstd::arithmetic::div_mod::lemma_mod_twice(p + (k - 1) * s, m);
    }
}

/// After any whole number of cycles — any count of samples whose total step
/// is a multiple of the full turn — an oscillator's phase is back where it
/// started.
pub proof fn lemma_oscillator_period(p: int, s: int, n: nat)
    requires
        0 <= p < 44_100_000_000,
        0 <= s < 44_100_000_000,
        (n * s) % 44_100_000_000 == 0,
    ensures
        phase_after(p, s, n) == p,
{
    let m = 44_100_000_000int;
    lemma_phase_after_closed(p, s, n);
    assert(0 <= n * s) by (nonlinear_arith)
        requires
            n >= 0,
            s >= 0,
    ;
    vstd::arithmetic::div_mod::lemma_small_mod(p as nat, m as nat);
    vstd::arithmetic::div_mod::lemma_add_mod_noop(p, n * s, m);
    vstd::arithmetic::div_mod::lemma_mod_twice(p, m);
}

/// Swapping the channels twice gives back the original frame; on a mono
/// frame one swap is already the identity.
pub proof fn lemma_swap_involution(f: FrameV)
    ensures
        swap_frame(swap_frame(f)) == f,
        f.right is None ==> swap_frame(f) == f,
{
}

/// A gain of one full-scale unit changes no frame.
pub proof fn lemma_gain_unit_identity(f: Frame)
    ensures
        frame_scale(f@, 1_000_000) == f@,
{
    assert forall|v: int| i32::MIN <= v <= i32::MAX implies scale_lane(v, 1_000_000) == v by {
        lemma_div_trunc_cancel(v, 1_000_000);
    }
    assert(seq_scale(f@.left, 1_000_000) =~= f@.left);
    match f.right {
        Some(r) => {
            assert(seq_scale(r@, 1_000_000) =~= r@);
        },
        None => {},
    }
}

/// Mixing a single live frame changes nothing: the mix of one frame is the
/// frame itself.
pub proof fn lemma_mix_single(f: Frame)
    ensures
        frame_div(frame_add(zero_frame(), f@), 1) == f@,
{
    assert(seq_div(seq_add(seq_zero(), f@.left), 1) =~= f@.left) by {
        assert forall|k: int| 0 <= k < 8 implies seq_div(seq_add(seq_zero(), f@.left), 1)[k]
            == f@.left[k] by {
            lemma_div_trunc_one(clamp32(0 + f@.left[k]));
        }
    }
    match f.right {
        Some(r) => {
            assert(seq_div(r@, 1) =~= r@) by {
                assert forall|k: int| 0 <= k < 8 implies seq_div(r@, 1)[k] == r@[k] by {
                    lemma_div_trunc_one(r@[k]);
                }
            }
        },
        None => {},
    }
}

/// A mixing node over a single child hands the child's frame on: one pull
/// of the node is one pull of the child, and the emitted frame is the
/// single-frame mix, which [`lemma_mix_single`] shows is the child's frame
/// itself for any frame within lane range.
pub proof fn lemma_step_mix_single(a: Node, b: Node, r: Option<FrameV>)
    requires
        node_step(a, b, r),
        a.proc matches Processor::Mix(_),
        a.modulator is None,
        a.children@.len() == 1,
    ensures
        b.children@.len() == 1,
        r is None ==> node_step(a.children@[0], b.children@[0], None),
        r matches Some(m) ==> exists|f: FrameV|
            #![trigger node_step(a.children@[0], b.children@[0], Some(f))]
            node_step(a.children@[0], b.children@[0], Some(f)) && m == frame_div(
                frame_add(zero_frame(), f),
                1,
            ),
{
    reveal_with_fuel(count_some, 2);
    reveal_with_fuel(sum_some, 2);
    let w = choose|w: StepWitness| node_step_w(a, b, r, w);
    assert(node_step_w(a, b, r, w));
    assert(w.p2 == a.proc);
    assert(node_mix_step(a, b, r, w));
    assert(node_step_w(a.children@[0], b.children@[0], w.fs[0], w.kids[0].0));
    assert(node_step(a.children@[0], b.children@[0], w.fs[0]));
    let tfs = w.fs.subrange(1, w.fs.len() as int);
    assert(tfs =~= Seq::<Option<FrameV>>::empty());
    assert(w.fs.drop_last() =~= Seq::<Option<FrameV>>::empty());
    assert(w.fs.last() == w.fs[0]);
    match w.fs[0] {
        Some(f) => {
            assert(count_some(w.fs) == 1);
            assert(sum_some(w.fs) == frame_add(sum_some(w.fs.drop_last()), f));
            assert(w.cf == Some(frame_div(frame_add(zero_frame(), f), 1)));
            assert(r matches Some(m) && m == frame_div(frame_add(zero_frame(), f), 1));
        },
        None => {
            assert(count_some(w.fs) == 0);
            assert(r is None);
        },
    }
}

/// Over a constant full-scale input, a fade emits exactly its gain ramp:
/// the starting gain at sample zero, the linear interpolation after it, and
/// full scale from the end of the ramp on.
pub proof fn lemma_fade_unit_input(g0: int, n: int, t: int)
    requires
        0 <= g0 <= 1_000_000,
        0 <= t,
    ensures
        scale_lane(1_000_000, fade_gain(g0, n, t)) == fade_gain(g0, n, t),
        t >= n ==> fade_gain(g0, n, t) == 1_000_000,
        n >= 1 ==> fade_gain(g0, n, 0) == g0,
{
    lemma_fade_gain_bounds(g0, n, t);
    let g = fade_gain(g0, n, t);
    assert(1_000_000 * g == g * 1_000_000) by (nonlinear_arith);
    lemma_div_trunc_cancel(g, 1_000_000);
    if n >= 1 {
        assert((1_000_000 - g0) * 0 == 0) by (nonlinear_arith);
        vstd::arithmetic::div_mod::lemma_small_mod(0nat, n as nat);
        assert(div_trunc(0, n) == 0);
    }
}

/// A one-frame delay line and the single-frame delay agree: when the
/// delay's ring holds what the single delay holds, both emit that frame and
/// both then hold the input.
pub proof fn lemma_delay_one_matches_onedelay(d: Delay, od: OneDelay, f: Frame)
    requires
        delay_wf(d),
        d.buf@.len() == 1,
        d.buf@[0] == od.prev,
    ensures
        d.buf@[d.idx as int] == od.prev,
        d.buf@.update(d.idx as int, f)[(d.idx as int + 1) % (d.buf@.len() as int)] == f,
{
    assert(d.idx == 0);
    vstd::arithmetic::div_mod::lemma_mod_self_0(1);
}

/// Taking the left channel of one stereo frame yields exactly its left
/// block; taking the right channel yields exactly its right block.
pub proof fn lemma_take_single(f: Frame)
    ensures
        seq_div(sum_lefts(seq![f@]), 1) == f@.left,
        f@.right matches Some(r) ==> seq_div(sum_rights(seq![f@]), 1) == r,
{
    reveal_with_fuel(sum_lefts, 2);
    reveal_with_fuel(sum_rights, 2);
    let s = seq![f@];
    assert(s.drop_last() =~= Seq::<FrameV>::empty());
    assert(sum_lefts(s) == seq_add(seq_zero(), f@.left));
    assert(seq_div(seq_add(seq_zero(), f@.left), 1) =~= f@.left) by {
        assert forall|k: int| 0 <= k < 8 implies seq_div(seq_add(seq_zero(), f@.left), 1)[k]
            == f@.left[k] by {
            lemma_div_trunc_one(clamp32(0 + f@.left[k]));
        }
    }
    match f.right {
        Some(r) => {
            assert(sum_rights(s) == seq_add(seq_zero(), r@));
            assert(seq_div(seq_add(seq_zero(), r@), 1) =~= r@) by {
                assert forall|k: int| 0 <= k < 8 implies seq_div(seq_add(seq_zero(), r@), 1)[k]
                    == r@[k] by {
                    lemma_div_trunc_one(clamp32(0 + r@[k]));
                }
            }
        },
        None => {},
    }
}

} // verus!
