use vstd::prelude::*;
use crate::letter::{Letter, successors};
use crate::walk::{PathCmd, child_frames, next, start_frames};

verus! {

/// `3^n`, and `1` for `n <= 0`: the leaves below a frame of depth `n`.
pub open spec fn pow3(n: int) -> nat
    decreases n,
{
    if n <= 0 {
        1
    } else {
        3 * pow3(n - 1)
    }
}

/// The nodes of the full ternary tree below a frame of depth `n`, the frame
/// itself included.
pub open spec fn tree_size(n: int) -> nat
    decreases n,
{
    if n <= 0 {
        1
    } else {
        1 + 3 * tree_size(n - 1)
    }
}

/// The points that the pending frames plot if no endpoint is found close.
pub open spec fn leaf_count(frames: Seq<(int, Seq<Letter>)>) -> nat
    decreases frames.len(),
{
    if frames.len() == 0 {
        0
    } else {
        leaf_count(frames.drop_last()) + pow3(frames.last().0)
    }
}

/// The decisions still to be taken at most: the traversal's measure.
pub open spec fn work(frames: Seq<(int, Seq<Letter>)>) -> nat
    decreases frames.len(),
{
    if frames.len() == 0 {
        0
    } else {
        work(frames.drop_last()) + tree_size(frames.last().0)
    }
}

proof fn lemma_sums_of_children(p: Seq<(int, Seq<Letter>)>, level: int, w: Seq<Letter>)
    requires
        w.len() >= 1,
    ensures
        leaf_count(p + child_frames(level, w)) == leaf_count(p) + 3 * pow3(level - 1),
        work(p + child_frames(level, w)) == work(p) + 3 * tree_size(level - 1),
{
    let (c1, c2, c3) = successors(w.last());
    let s = p + child_frames(level, w);
    let s1 = p + seq![(level - 1, w.push(c3)), (level - 1, w.push(c2))];
    let s2 = p + seq![(level - 1, w.push(c3))];
    assert(s.drop_last() =~= s1);
    assert(s1.drop_last() =~= s2);
    assert(s2.drop_last() =~= p);
    assert(s.last().0 == level - 1 && s1.last().0 == level - 1 && s2.last().0 == level - 1);
    assert(leaf_count(s2) == leaf_count(p) + pow3(level - 1));
    assert(leaf_count(s1) == leaf_count(s2) + pow3(level - 1));
    assert(leaf_count(s) == leaf_count(s1) + pow3(level - 1));
    assert(work(s2) == work(p) + tree_size(level - 1));
    assert(work(s1) == work(s2) + tree_size(level - 1));
    assert(work(s) == work(s1) + tree_size(level - 1));
}

/// Every decision on a pending frame shrinks the measure, so a traversal
/// ends whatever the closeness answers are.
pub proof fn lemma_step_shrinks_work(
    frames: Seq<(int, Seq<Letter>)>,
    cmds: Seq<PathCmd>,
    close: bool,
)
    requires
        frames.len() > 0,
        frames.last().1.len() >= 1,
    ensures
        work(next(frames, cmds, close).0) < work(frames),
{
    let (level, w) = frames.last();
    if !(level <= 0 || close) {
        lemma_sums_of_children(frames.drop_last(), level, w);
    }
}

/// The points plotted plus the leaves still pending never grow, and stay
/// the same when the endpoint is not close: a cut-off only removes points.
pub proof fn lemma_step_keeps_count(
    frames: Seq<(int, Seq<Letter>)>,
    cmds: Seq<PathCmd>,
    close: bool,
)
    requires
        frames.len() > 0,
        frames.last().1.len() >= 1,
    ensures
        ({
            let (f, c, _) = next(frames, cmds, close);
            &&& c.len() + leaf_count(f) <= cmds.len() + leaf_count(frames)
            &&& !close ==> c.len() + leaf_count(f) == cmds.len() + leaf_count(frames)
        }),
{
    let (level, w) = frames.last();
    if !(level <= 0 || close) {
        lemma_sums_of_children(frames.drop_last(), level, w);
        assert(pow3(level) == 3 * pow3(level - 1));
    } else {
        assert(pow3(level) >= 1) by {
            lemma_pow3_positive(level);
        }
    }
}

proof fn lemma_pow3_positive(n: int)
    ensures
        pow3(n) >= 1,
    decreases n,
{
    if n > 0 {
        lemma_pow3_positive(n - 1);
    }
}

/// A traversal of depth `max_level` starts with `4 * 3^(max_level - 1)`
/// leaves pending: the most points it can plot after the seed, reached when
/// no endpoint is close.
pub proof fn lemma_start_count(max_level: int)
    ensures
        leaf_count(start_frames(max_level - 1)) == 4 * pow3(max_level - 1),
{
    let n = max_level - 1;
    let s = start_frames(n);
    let s1 = s.drop_last();
    let s2 = s1.drop_last();
    let s3 = s2.drop_last();
    assert(s3.drop_last() =~= Seq::<(int, Seq<Letter>)>::empty());
    assert(s3.len() == 1 && s3.last().0 == n);
    assert(leaf_count(s3.drop_last()) == 0);
    assert(leaf_count(s3) == pow3(n));
    assert(leaf_count(s2) == 2 * pow3(n));
    assert(leaf_count(s1) == 3 * pow3(n));
}

} // verus!
