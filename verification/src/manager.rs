//! The graph manager: the tree root, the path table, and the output stager.
//!
//! Nodes are named by stable external identifiers: the identifier of a node
//! is its position in the path table, whose entry holds the child-index path
//! from the root to the node. Identifier zero is the root and holds the
//! empty path. Clearing a subtree rewrites every entry that led strictly
//! into it to the cleared node's own path, so positions keep their meaning
//! and every entry keeps resolving.
//!
//! The stager packs frames as interleaved 16-bit PCM — eight left samples,
//! then eight right samples per frame — and suspends a partially consumed
//! frame across calls.

use vstd::prelude::*;

use crate::error::NodeError;
use crate::modulators::{modulator_wf, Modulator};
use crate::node::{
    added_at, lemma_add_err_shape, lemma_add_new_path, lemma_add_resolves, lemma_added_result,
    lemma_clear_resolves, lemma_clear_target_resolves, lemma_op_keeps_shape,
    lemma_same_shape_resolves, lemma_same_shape_trans, node_at, node_step, op_applied_at, op_wf,
    opt_fv, strictly_extends, Node, NodeOp,
};
use crate::num::{clamp_between, clamp_i64, div_i64, div_trunc};
use crate::processor::{processor_wf, Processor};
use crate::sample::{Frame, FrameV};

verus! {

/// The audio graph manager and output stager.
pub struct Manager {
    pub root: Node,
    pub paths: Vec<Vec<u8>>,
    pub prev: Option<Frame>,
    pub consumed: usize,
}

/// The manager's invariant: the tree is well formed (every node within the
/// fan-out cap), the path table holds at most the node cap with the empty
/// path at position zero, every table entry resolves to a node, and the
/// stager holds a partial frame exactly when its consumed count is strictly
/// between zero and sixteen.
pub open spec fn manager_wf(m: Manager) -> bool {
    &&& m.root.wf()
    &&& 1 <= m.paths@.len() <= 32
    &&& m.paths@[0]@.len() == 0
    &&& forall|i: int|
        0 <= i < m.paths@.len() ==> m.root.resolves((#[trigger] m.paths@[i])@, 0)
    &&& match m.prev {
        Some(_) => 0 < m.consumed < 16,
        None => m.consumed == 0,
    }
}

/// One PCM output value of a frame: positions zero to seven read the left
/// block, eight to fifteen the right (the left again for a mono frame);
/// the lane is clamped to full scale and scaled to the 16-bit range.
pub open spec fn pcm_of(f: FrameV, k: int) -> int
    recommends
        0 <= k < 16,
{
    let lane = if k < 8 {
        f.left[k]
    } else {
        match f.right {
            Some(r) => r[k - 8],
            None => f.left[k - 8],
        }
    };
    div_trunc(clamp_between(lane, -1_000_000, 1_000_000) * 32_767, 1_000_000)
}

/// One PCM output value of a frame.
pub fn pcm_value(frame: &Frame, k: usize) -> (r: i16)
    requires
        k < 16,
    ensures
        r as int == pcm_of(frame@, k as int),
{
    let lane: i32 = if k < 8 {
        frame.left.lanes[k]
    } else {
        match &frame.right {
            Some(rt) => rt.lanes[k - 8],
            None => frame.left.lanes[k - 8],
        }
    };
    let c = clamp_i64(lane as i64, -1_000_000, 1_000_000);
    proof {
        crate::num::lemma_div_trunc_bound(c as int * 32_767, 1_000_000, 32_767);
    }
    let v = div_i64(c * 32_767, 1_000_000);
    v as i16
}

/// Write `n` PCM values of a frame, starting at its value `skip`, into the
/// buffer at position `at`; nothing else in the buffer moves.
fn fill_buf(buf: &mut Vec<i16>, at: usize, frame: &Frame, skip: usize, n: usize)
    requires
        at + n <= old(buf)@.len(),
        skip + n <= 16,
    ensures
        final(buf)@.len() == old(buf)@.len(),
        forall|j: int|
            at <= j < at + n ==> final(buf)@[j] as int == pcm_of(frame@, skip + (j - at)),
        forall|j: int|
            0 <= j < old(buf)@.len() && !(at <= j < at + n) ==> final(buf)@[j] == old(buf)@[j],
{
    let bl = buf.len();
    let mut j: usize = 0;
    while j < n
        invariant
            j <= n,
            at + n <= bl,
            bl == buf@.len(),
            skip + n <= 16,
            buf@.len() == old(buf)@.len(),
            forall|t: int|
                at <= t < at + j ==> buf@[t] as int == pcm_of(frame@, skip + (t - at)),
            forall|t: int|
                0 <= t < old(buf)@.len() && !(at <= t < at + j) ==> buf@[t] == old(buf)@[t],
        decreases n - j,
    {
        let v = pcm_value(frame, skip + j);
        buf[at + j] = v;
        j = j + 1;
    }
}

/// A fresh vector with the same bytes as the given path.
fn copy_path(src: &Vec<u8>) -> (r: Vec<u8>)
    ensures
        r@ == src@,
{
    let n = src.len();
    let mut out: Vec<u8> = Vec::new();
    let mut t: usize = 0;
    while t < n
        invariant
            t <= n,
            n == src@.len(),
            out@ == src@.take(t as int),
        decreases n - t,
    {
        out.push(src[t]);
        proof {
            assert(out@ =~= src@.take(t + 1));
        }
        t = t + 1;
    }
    proof {
        assert(out@ =~= src@);
    }
    out
}

/// Whether the first path leads strictly into the subtree the second names.
fn is_strict_ext(q: &Vec<u8>, p: &Vec<u8>) -> (r: bool)
    ensures
        r == strictly_extends(q@, p@, 0),
{
    if q.len() <= p.len() {
        assert(!strictly_extends(q@, p@, 0));
        return false;
    }
    let n = p.len();
    let mut t: usize = 0;
    while t < n
        invariant
            t <= n,
            n == p@.len(),
            q@.len() > p@.len(),
            forall|j: int| 0 <= j < t ==> q@[j] == p@[j],
        decreases n - t,
    {
        if q[t] != p[t] {
            return false;
        }
        t = t + 1;
    }
    true
}

/// Zero the buffer from a position to its end.
fn zero_fill(buf: &mut Vec<i16>, at: usize)
    requires
        at <= old(buf)@.len(),
    ensures
        final(buf)@.len() == old(buf)@.len(),
        forall|j: int| at <= j < old(buf)@.len() ==> final(buf)@[j] == 0,
        forall|j: int| 0 <= j < at ==> final(buf)@[j] == old(buf)@[j],
{
    let n = buf.len();
    let mut j: usize = at;
    while j < n
        invariant
            at <= j <= n,
            n == buf@.len(),
            buf@.len() == old(buf)@.len(),
            forall|t: int| at <= t < j ==> buf@[t] == 0,
            forall|t: int| 0 <= t < at ==> buf@[t] == old(buf)@[t],
        decreases n - j,
    {
        buf[j] = 0;
        j = j + 1;
    }
}

/// The draining phase of a write, read from buffer position `pos` on:
/// while at least a whole frame of sixteen values fits, one frame is pulled
/// from the root and packed; a frame that no longer fits wholly is packed
/// as far as the buffer goes and suspended with its consumed count; and
/// once the root reports end of stream the rest of the buffer is silence
/// and nothing is suspended.
pub open spec fn drain_rel(
    root0: Node,
    root1: Node,
    buf: Seq<i16>,
    pos: int,
    prev1: Option<Frame>,
    consumed1: int,
) -> bool
    decreases buf.len() - pos,
{
    if pos < 0 {
        false
    } else if buf.len() - pos >= 16 {
        exists|mid: Node, fr: Option<FrameV>|
            #![trigger node_step(root0, mid, fr)]
            node_step(root0, mid, fr) && match fr {
                None => root1 == mid && prev1 is None && consumed1 == 0 && (forall|j: int|
                    pos <= j < buf.len() ==> buf[j] == 0),
                Some(f) => (forall|j: int|
                    pos <= j < pos + 16 ==> buf[j] as int == pcm_of(f, j - pos)) && drain_rel(
                    mid,
                    root1,
                    buf,
                    pos + 16,
                    prev1,
                    consumed1,
                ),
            }
    } else if pos < buf.len() {
        exists|fr: Option<FrameV>|
            #![trigger node_step(root0, root1, fr)]
            node_step(root0, root1, fr) && match fr {
                Some(f) => (forall|j: int|
                    pos <= j < buf.len() ==> buf[j] as int == pcm_of(f, j - pos)) && (
                prev1 matches Some(pf) && pf@ == f) && consumed1 == buf.len() - pos,
                None => prev1 is None && consumed1 == 0 && (forall|j: int|
                    pos <= j < buf.len() ==> buf[j] == 0),
            }
    } else {
        root1 == root0 && prev1 is None && consumed1 == 0
    }
}

impl Manager {
    /// A fresh graph: a mixing root with no children, the path table holding
    /// only the root's empty path, and an idle stager.
    pub fn new() -> (r: Manager)
        ensures
            manager_wf(r),
            r.paths@.len() == 1,
            r.root.children@.len() == 0,
            r.prev is None,
            r.consumed == 0,
    {
        let mut paths: Vec<Vec<u8>> = Vec::new();
        paths.push(Vec::new());
        Manager { root: Node::new_root(), paths, prev: None, consumed: 0 }
    }

    /// Add a node under the given parent and return its fresh identifier:
    /// the new size of the path table. Fails when the table is full, when
    /// the parent identifier is unknown, or when the parent already holds
    /// the maximum number of children; a failure changes nothing.
    pub fn add_node(&mut self, parent_id: u32, proc: Processor) -> (r: Result<u32, NodeError>)
        requires
            manager_wf(*old(self)),
            processor_wf(proc),
        ensures
            manager_wf(*final(self)),
            final(self).prev == old(self).prev,
            final(self).consumed == old(self).consumed,
            old(self).paths@.len() >= 32 ==> r == Result::<u32, NodeError>::Err(
                NodeError::TooManyNodes,
            ) && final(self).root == old(self).root && final(self).paths@ == old(self).paths@,
            old(self).paths@.len() < 32 && parent_id as int >= old(self).paths@.len() ==> r
                == Result::<u32, NodeError>::Err(NodeError::UnknownID(parent_id)) && final(self).root
                == old(self).root && final(self).paths@ == old(self).paths@,
            old(self).paths@.len() < 32 && (parent_id as int) < old(self).paths@.len() ==> {
                let p = old(self).paths@[parent_id as int]@;
                let target = node_at(old(self).root, p, 0);
                &&& target.children@.len() >= 4 ==> (r == Result::<u32, NodeError>::Err(
                    NodeError::TooManyChildren,
                ) && final(self).paths@ == old(self).paths@ && added_at(
                    old(self).root,
                    final(self).root,
                    p,
                    0,
                    proc,
                    Result::<u8, NodeError>::Err(NodeError::TooManyChildren),
                ))
                &&& target.children@.len() < 4 ==> (r == Result::<u32, NodeError>::Ok(
                    old(self).paths@.len() as u32,
                ) && added_at(
                    old(self).root,
                    final(self).root,
                    p,
                    0,
                    proc,
                    Result::<u8, NodeError>::Ok(target.children@.len() as u8),
                ) && final(self).paths@.len() == old(self).paths@.len() + 1 && (forall|j: int|
                    0 <= j < old(self).paths@.len() ==> final(self).paths@[j] == old(
                        self,
                    ).paths@[j]) && final(self).paths@.last()@ == p.push(
                    target.children@.len() as u8,
                ))
            },
    {
        if self.paths.len() >= 32 {
            return Err(NodeError::TooManyNodes);
        }
        let pid = parent_id as usize;
        if pid >= self.paths.len() {
            return Err(NodeError::UnknownID(parent_id));
        }
        let ghost p = self.paths@[pid as int]@;
        let ghost root0 = self.root;
        let mut parent_path: Vec<u8> = copy_path(&self.paths[pid]);
        let res = self.root.add_at(&parent_path, 0, proc);
        match res {
            Ok(idx) => {
                proof {
                    lemma_added_result(
                        root0,
                        self.root,
                        p,
                        0,
                        proc,
                        Result::<u8, NodeError>::Ok(idx),
                    );
                }
                let id = self.paths.len() as u32;
                parent_path.push(idx);
                self.paths.push(parent_path);
                proof {
                    assert forall|i: int|
                        0 <= i < self.paths@.len() implies self.root.resolves(
                        (#[trigger] self.paths@[i])@,
                        0,
                    ) by {
                        if i < old(self).paths@.len() {
                            assert(self.paths@[i] == old(self).paths@[i]);
                            lemma_add_resolves(
                                root0,
                                self.root,
                                p,
                                0,
                                proc,
                                Result::<u8, NodeError>::Ok(idx),
                                old(self).paths@[i]@,
                            );
                        } else {
                            lemma_add_new_path(root0, self.root, p, 0, proc, idx);
                            assert(self.paths@[i]@ == p.push(idx));
                        }
                    }
                    assert(self.paths@[0] == old(self).paths@[0]);
                }
                Ok(id)
            },
            Err(e) => {
                proof {
                    lemma_added_result(
                        root0,
                        self.root,
                        p,
                        0,
                        proc,
                        Result::<u8, NodeError>::Err(e),
                    );
                    lemma_add_err_shape(root0, self.root, p, 0, proc, e);
                    assert forall|i: int|
                        0 <= i < self.paths@.len() implies self.root.resolves(
                        (#[trigger] self.paths@[i])@,
                        0,
                    ) by {
                        lemma_same_shape_resolves(root0, self.root, self.paths@[i]@, 0);
                    }
                }
                Err(e)
            },
        }
    }

    /// Remove all children of the node with the given identifier. Every
    /// table entry that led strictly into the cleared subtree is rewritten
    /// to the cleared node's own path, so identifiers are never renumbered
    /// and every entry keeps resolving.
    pub fn clear(&mut self, id: u32) -> (r: Result<(), NodeError>)
        requires
            manager_wf(*old(self)),
        ensures
            manager_wf(*final(self)),
            final(self).prev == old(self).prev,
            final(self).consumed == old(self).consumed,
            id as int >= old(self).paths@.len() ==> r == Result::<(), NodeError>::Err(
                NodeError::UnknownID(id),
            ) && final(self).root == old(self).root && final(self).paths@ == old(self).paths@,
            (id as int) < old(self).paths@.len() ==> {
                let p = old(self).paths@[id as int]@;
                &&& r == Result::<(), NodeError>::Ok(())
                &&& op_applied_at(old(self).root, final(self).root, p, 0, NodeOp::Clear)
                &&& final(self).paths@.len() == old(self).paths@.len()
                &&& forall|j: int|
                    0 <= j < old(self).paths@.len() ==> (#[trigger] final(self).paths@[j])@ == (
                    if strictly_extends(old(self).paths@[j]@, p, 0) {
                        p
                    } else {
                        old(self).paths@[j]@
                    })
            },
    {
        let idu = id as usize;
        if idu >= self.paths.len() {
            return Err(NodeError::UnknownID(id));
        }
        let ghost p = self.paths@[idu as int]@;
        let ghost root0 = self.root;
        let path = copy_path(&self.paths[idu]);
        self.root.op_at(&path, 0, NodeOp::Clear);
        let ghost root1 = self.root;
        let n = self.paths.len();
        let mut j: usize = 0;
        while j < n
            invariant
                j <= n,
                n == self.paths@.len(),
                n == old(self).paths@.len(),
                path@ == p,
                self.root == root1,
                op_applied_at(root0, root1, p, 0, NodeOp::Clear),
                root0 == old(self).root,
                self.prev == old(self).prev,
                self.consumed == old(self).consumed,
                root1.wf(),
                forall|t: int|
                    j <= t < n ==> #[trigger] self.paths@[t] == old(self).paths@[t],
                forall|t: int|
                    0 <= t < j ==> (#[trigger] self.paths@[t])@ == (if strictly_extends(
                        old(self).paths@[t]@,
                        p,
                        0,
                    ) {
                        p
                    } else {
                        old(self).paths@[t]@
                    }),
            decreases n - j,
        {
            if is_strict_ext(&self.paths[j], &path) {
                let replacement = copy_path(&path);
                self.paths[j] = replacement;
            }
            j = j + 1;
        }
        proof {
            assert(!strictly_extends(old(self).paths@[0]@, p, 0));
            assert(self.paths@[0]@ == old(self).paths@[0]@);
            assert(root0.resolves(old(self).paths@[idu as int]@, 0));
            assert forall|t: int|
                0 <= t < self.paths@.len() implies self.root.resolves(
                (#[trigger] self.paths@[t])@,
                0,
            ) by {
                assert(root0.resolves(old(self).paths@[t]@, 0));
                if strictly_extends(old(self).paths@[t]@, p, 0) {
                    lemma_clear_target_resolves(root0, self.root, p, 0);
                } else {
                    lemma_clear_resolves(root0, self.root, p, 0, old(self).paths@[t]@);
                }
            }
        }
        Ok(())
    }

    /// Apply one node operation to the node an identifier names; used by
    /// the reset, behavior and modulation entry points, which cannot hand
    /// out a reference into the tree.
    fn apply_op(&mut self, id: u32, op: NodeOp) -> (r: Result<(), NodeError>)
        requires
            manager_wf(*old(self)),
            op_wf(op),
            !(op is Clear),
        ensures
            manager_wf(*final(self)),
            final(self).prev == old(self).prev,
            final(self).consumed == old(self).consumed,
            final(self).paths == old(self).paths,
            id as int >= old(self).paths@.len() ==> r == Result::<(), NodeError>::Err(
                NodeError::UnknownID(id),
            ) && final(self).root == old(self).root,
            (id as int) < old(self).paths@.len() ==> r == Result::<(), NodeError>::Ok(())
                && op_applied_at(
                old(self).root,
                final(self).root,
                old(self).paths@[id as int]@,
                0,
                op,
            ),
    {
        let idu = id as usize;
        if idu >= self.paths.len() {
            return Err(NodeError::UnknownID(id));
        }
        let ghost p = self.paths@[idu as int]@;
        let ghost root0 = self.root;
        let path = copy_path(&self.paths[idu]);
        self.root.op_at(&path, 0, op);
        proof {
            lemma_op_keeps_shape(root0, self.root, p, 0, op);
            assert forall|t: int|
                0 <= t < self.paths@.len() implies self.root.resolves(
                (#[trigger] self.paths@[t])@,
                0,
            ) by {
                lemma_same_shape_resolves(root0, self.root, self.paths@[t]@, 0);
            }
        }
        Ok(())
    }

    /// Reset the processor of the node with the given identifier.
    pub fn reset_node(&mut self, id: u32) -> (r: Result<(), NodeError>)
        requires
            manager_wf(*old(self)),
        ensures
            manager_wf(*final(self)),
            final(self).prev == old(self).prev,
            final(self).consumed == old(self).consumed,
            final(self).paths == old(self).paths,
            id as int >= old(self).paths@.len() ==> r == Result::<(), NodeError>::Err(
                NodeError::UnknownID(id),
            ) && final(self).root == old(self).root,
            (id as int) < old(self).paths@.len() ==> r == Result::<(), NodeError>::Ok(())
                && op_applied_at(
                old(self).root,
                final(self).root,
                old(self).paths@[id as int]@,
                0,
                NodeOp::Reset,
            ),
    {
        self.apply_op(id, NodeOp::Reset)
    }

    /// Reset the node with the given identifier and all its descendants.
    pub fn reset_all(&mut self, id: u32) -> (r: Result<(), NodeError>)
        requires
            manager_wf(*old(self)),
        ensures
            manager_wf(*final(self)),
            final(self).prev == old(self).prev,
            final(self).consumed == old(self).consumed,
            final(self).paths == old(self).paths,
            id as int >= old(self).paths@.len() ==> r == Result::<(), NodeError>::Err(
                NodeError::UnknownID(id),
            ) && final(self).root == old(self).root,
            (id as int) < old(self).paths@.len() ==> r == Result::<(), NodeError>::Ok(())
                && op_applied_at(
                old(self).root,
                final(self).root,
                old(self).paths@[id as int]@,
                0,
                NodeOp::ResetAll,
            ),
    {
        self.apply_op(id, NodeOp::ResetAll)
    }

    /// Replace the processor of the node with the given identifier.
    pub fn set_behavior(&mut self, id: u32, proc: Processor) -> (r: Result<(), NodeError>)
        requires
            manager_wf(*old(self)),
            processor_wf(proc),
        ensures
            manager_wf(*final(self)),
            final(self).prev == old(self).prev,
            final(self).consumed == old(self).consumed,
            final(self).paths == old(self).paths,
            id as int >= old(self).paths@.len() ==> r == Result::<(), NodeError>::Err(
                NodeError::UnknownID(id),
            ) && final(self).root == old(self).root,
            (id as int) < old(self).paths@.len() ==> r == Result::<(), NodeError>::Ok(())
                && op_applied_at(
                old(self).root,
                final(self).root,
                old(self).paths@[id as int]@,
                0,
                NodeOp::SetBehavior(proc),
            ),
    {
        self.apply_op(id, NodeOp::SetBehavior(proc))
    }

    /// Install or replace the modulator binding of the node with the given
    /// identifier.
    pub fn modulate(&mut self, id: u32, param: u8, modulator: Modulator) -> (r: Result<
        (),
        NodeError,
    >)
        requires
            manager_wf(*old(self)),
            modulator_wf(modulator),
        ensures
            manager_wf(*final(self)),
            final(self).prev == old(self).prev,
            final(self).consumed == old(self).consumed,
            final(self).paths == old(self).paths,
            id as int >= old(self).paths@.len() ==> r == Result::<(), NodeError>::Err(
                NodeError::UnknownID(id),
            ) && final(self).root == old(self).root,
            (id as int) < old(self).paths@.len() ==> r == Result::<(), NodeError>::Ok(())
                && op_applied_at(
                old(self).root,
                final(self).root,
                old(self).paths@[id as int]@,
                0,
                NodeOp::Modulate(param, modulator),
            ),
    {
        self.apply_op(id, NodeOp::Modulate(param, modulator))
    }

    /// Whether a node with the given identifier exists.
    pub fn get_node(&self, id: u32) -> (r: Result<(), NodeError>)
        ensures
            (id as int) < self.paths@.len() <==> r == Result::<(), NodeError>::Ok(()),
            id as int >= self.paths@.len() ==> r == Result::<(), NodeError>::Err(
                NodeError::UnknownID(id),
            ),
    {
        if (id as usize) < self.paths.len() {
            Ok(())
        } else {
            Err(NodeError::UnknownID(id))
        }
    }

    /// Resume the partially consumed frame, if one is held: write as much
    /// of its remainder as fits from position `at` on, and clear it once
    /// all sixteen of its values are out.
    fn write_prev(&mut self, buf: &mut Vec<i16>, at: usize) -> (pos: usize)
        requires
            match old(self).prev {
                Some(_) => 0 < old(self).consumed < 16,
                None => old(self).consumed == 0,
            },
            at <= old(buf)@.len(),
        ensures
            final(self).root == old(self).root,
            final(self).paths == old(self).paths,
            final(buf)@.len() == old(buf)@.len(),
            at <= pos <= old(buf)@.len(),
            match final(self).prev {
                Some(_) => 0 < final(self).consumed < 16,
                None => final(self).consumed == 0,
            },
            pos < old(buf)@.len() ==> final(self).prev is None,
            forall|j: int|
                0 <= j < old(buf)@.len() && !(at <= j < pos) ==> final(buf)@[j] == old(buf)@[j],
            old(self).prev is None ==> pos == at && final(self).prev is None && final(self).consumed == 0 && final(buf)@ == old(buf)@,
            old(self).prev matches Some(f) ==> {
                let rem = 16 - old(self).consumed as int;
                let space = old(buf)@.len() - at;
                let w = if rem <= space {
                    rem
                } else {
                    space
                };
                &&& pos == at + w
                &&& forall|j: int|
                    at <= j < at + w ==> final(buf)@[j] as int == pcm_of(
                        f@,
                        old(self).consumed + (j - at),
                    )
                &&& (old(self).consumed + w == 16 ==> final(self).prev is None && final(self).consumed == 0)
                &&& (old(self).consumed + w < 16 ==> final(self).prev == old(self).prev && final(self).consumed as int == old(self).consumed + w)
            },
    {
        let f = match &self.prev {
            None => {
                return at;
            },
            Some(fr) => *fr,
        };
        let rem = 16 - self.consumed;
        let space = buf.len() - at;
        let w = if rem <= space {
            rem
        } else {
            space
        };
        fill_buf(buf, at, &f, self.consumed, w);
        let newc = self.consumed + w;
        if newc >= 16 {
            self.prev = None;
            self.consumed = 0;
        } else {
            self.consumed = newc;
        }
        at + w
    }

    /// Fill the whole buffer with interleaved 16-bit PCM: first the rest of
    /// a suspended frame, then whole frames pulled from the root; a frame
    /// that no longer fits is suspended, and once the graph reports end of
    /// stream the remainder is silence. The resumed prefix is fixed by the
    /// suspended frame, and the rest of the buffer by [`drain_rel`], the
    /// step-by-step description of the draining phase.
    pub fn write(&mut self, buf: &mut Vec<i16>)
        requires
            manager_wf(*old(self)),
        ensures
            manager_wf(*final(self)),
            final(buf)@.len() == old(buf)@.len(),
            final(self).paths == old(self).paths,
            old(self).root.same_shape(final(self).root),
            old(self).prev matches Some(f) ==> ({
                let rem = 16 - old(self).consumed as int;
                let w = if rem <= old(buf)@.len() {
                    rem
                } else {
                    old(buf)@.len() as int
                };
                forall|j: int|
                    0 <= j < w ==> final(buf)@[j] as int == pcm_of(f@, old(self).consumed + j)
            }),
            match old(self).prev {
                None => drain_rel(
                    old(self).root,
                    final(self).root,
                    final(buf)@,
                    0,
                    final(self).prev,
                    final(self).consumed as int,
                ),
                Some(_) => {
                    let rem = 16 - old(self).consumed as int;
                    if rem <= old(buf)@.len() {
                        drain_rel(
                            old(self).root,
                            final(self).root,
                            final(buf)@,
                            rem,
                            final(self).prev,
                            final(self).consumed as int,
                        )
                    } else {
                        final(self).root == old(self).root && final(self).prev == old(self).prev
                            && final(self).consumed as int == old(self).consumed + old(
                            buf,
                        )@.len()
                    }
                },
            },
    {
        let ghost root0 = self.root;
        let len = buf.len();
        let mut pos = self.write_prev(buf, 0);
        let ghost pos0 = pos as int;
        let ghost prev1 = self.prev;
        let ghost cons1 = self.consumed;
        proof {
            crate::node::lemma_same_shape_refl(self.root);
        }
        while len - pos >= 16
            invariant
                pos0 <= pos,
                match old(self).prev {
                    None => pos0 == 0,
                    Some(_) => pos0 == ({
                        let rem = 16 - old(self).consumed as int;
                        if rem <= len {
                            rem
                        } else {
                            len as int
                        }
                    }),
                },
                self.prev == prev1,
                self.consumed == cons1,
                prev1 is Some ==> (16 - old(self).consumed as int) > len,
                pos == pos0 ==> self.root == root0,
                old(self).prev matches Some(f) ==> ({
                    let rem = 16 - old(self).consumed as int;
                    let w = if rem <= old(buf)@.len() {
                        rem
                    } else {
                        old(buf)@.len() as int
                    };
                    w <= pos0 && forall|j: int|
                        0 <= j < w ==> buf@[j] as int == pcm_of(f@, old(self).consumed + j)
                }),
                pos <= len,
                len == buf@.len(),
                len == old(buf)@.len(),
                self.root.wf(),
                root0 == old(self).root,
                root0.same_shape(self.root),
                self.paths == old(self).paths,
                1 <= self.paths@.len() <= 32,
                self.paths@[0]@.len() == 0,
                forall|i: int|
                    0 <= i < self.paths@.len() ==> self.root.resolves(
                        (#[trigger] self.paths@[i])@,
                        0,
                    ),
                pos < len ==> self.prev is None && self.consumed == 0,
                match self.prev {
                    Some(_) => 0 < self.consumed < 16,
                    None => self.consumed == 0,
                },
                forall|rootF: Node, bufF: Seq<i16>, prevF: Option<Frame>, consF: int|
                    (bufF.len() == len && (forall|j: int| 0 <= j < pos ==> bufF[j] == buf@[j])
                        && #[trigger] drain_rel(self.root, rootF, bufF, pos as int, prevF, consF))
                        ==> drain_rel(root0, rootF, bufF, pos0, prevF, consF),
            decreases len - pos,
        {
            let ghost pre = self.root;
            let ghost bufpre = buf@;
            let ghost posi = pos as int;
            let fo = self.root.next_frame();
            proof {
                lemma_same_shape_trans(root0, pre, self.root);
                assert forall|i: int|
                    0 <= i < self.paths@.len() implies self.root.resolves(
                    (#[trigger] self.paths@[i])@,
                    0,
                ) by {
                    lemma_same_shape_resolves(pre, self.root, self.paths@[i]@, 0);
                }
            }
            match fo {
                Some(f) => {
                    fill_buf(buf, pos, &f, 0, 16);
                    pos = pos + 16;
                    proof {
                        assert forall|rootF: Node, bufF: Seq<i16>, prevF: Option<Frame>, consF: int|
                            (bufF.len() == len && (forall|j: int|
                                0 <= j < pos ==> bufF[j] == buf@[j]) && #[trigger] drain_rel(
                                self.root,
                                rootF,
                                bufF,
                                pos as int,
                                prevF,
                                consF,
                            )) implies drain_rel(root0, rootF, bufF, pos0, prevF, consF) by {
                            assert(node_step(pre, self.root, opt_fv(Some(f))));
                            assert forall|j: int|
                                posi <= j < posi + 16 implies bufF[j] as int == pcm_of(
                                f@,
                                j - posi,
                            ) by {
                                assert(bufF[j] == buf@[j]);
                            }
                            assert(drain_rel(pre, rootF, bufF, posi, prevF, consF));
                            assert forall|j: int| 0 <= j < posi implies bufF[j] == bufpre[j] by {
                                assert(bufF[j] == buf@[j]);
                                assert(buf@[j] == bufpre[j]);
                            }
                        }
                    }
                },
                None => {
                    zero_fill(buf, pos);
                    proof {
                        assert(node_step(pre, self.root, opt_fv(None::<Frame>)));
                        assert(drain_rel(pre, self.root, buf@, posi, self.prev, 0));
                        assert forall|j: int| 0 <= j < posi implies buf@[j] == bufpre[j] by {}
                        assert(drain_rel(root0, self.root, buf@, pos0, self.prev, 0));
                    }
                    return;
                },
            }
        }
        if pos < len {
            let ghost pre = self.root;
            let ghost bufpre = buf@;
            let ghost posi = pos as int;
            let fo = self.root.next_frame();
            proof {
                lemma_same_shape_trans(root0, pre, self.root);
                assert forall|i: int|
                    0 <= i < self.paths@.len() implies self.root.resolves(
                    (#[trigger] self.paths@[i])@,
                    0,
                ) by {
                    lemma_same_shape_resolves(pre, self.root, self.paths@[i]@, 0);
                }
            }
            match fo {
                Some(f) => {
                    let w = len - pos;
                    fill_buf(buf, pos, &f, 0, w);
                    self.prev = Some(f);
                    self.consumed = w;
                    proof {
                        assert(node_step(pre, self.root, opt_fv(Some(f))));
                        assert(drain_rel(
                            pre,
                            self.root,
                            buf@,
                            posi,
                            self.prev,
                            self.consumed as int,
                        ));
                        assert(drain_rel(
                            root0,
                            self.root,
                            buf@,
                            pos0,
                            self.prev,
                            self.consumed as int,
                        ));
                    }
                },
                None => {
                    zero_fill(buf, pos);
                    proof {
                        assert(node_step(pre, self.root, opt_fv(None::<Frame>)));
                        assert(drain_rel(pre, self.root, buf@, posi, self.prev, 0));
                        assert(drain_rel(root0, self.root, buf@, pos0, self.prev, 0));
                    }
                },
            }
        } else {
            proof {
                match old(self).prev {
                    None => {
                        assert(self.prev is None && self.consumed == 0);
                        assert(drain_rel(
                            self.root,
                            self.root,
                            buf@,
                            len as int,
                            self.prev,
                            self.consumed as int,
                        ));
                        assert(drain_rel(
                            root0,
                            self.root,
                            buf@,
                            pos0,
                            self.prev,
                            self.consumed as int,
                        ));
                    },
                    Some(_) => {
                        let rem = 16 - old(self).consumed as int;
                        if rem <= len as int {
                            assert(self.prev is None && self.consumed == 0);
                            assert(drain_rel(
                                self.root,
                                self.root,
                                buf@,
                                len as int,
                                self.prev,
                                self.consumed as int,
                            ));
                            assert(drain_rel(
                                root0,
                                self.root,
                                buf@,
                                pos0,
                                self.prev,
                                self.consumed as int,
                            ));
                        } else {
                            assert(pos0 == len as int);
                            assert(pos == pos0);
                            assert(self.root == root0);
                        }
                    },
                }
            }
        }
    }
}

} // verus!
