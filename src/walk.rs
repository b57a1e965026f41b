use vstd::prelude::*;
use crate::letter::{Letter, inverse, is_reduced, successors};
use crate::measure::{leaf_count, lemma_start_count, lemma_step_keeps_count, pow3};

verus! {

/// A path command, in symbolic form. The point is named by a word: the empty
/// word names the seed point `1`, a word `w` ending in letter `l` names the
/// image under `w` of the endpoint on the side of `l`.
#[derive(Debug)]
pub enum Cmd {
    MoveTo(Vec<Letter>),
    LineTo(Vec<Letter>),
}

/// The mathematical value of a [`Cmd`].
pub enum PathCmd {
    MoveTo(Seq<Letter>),
    LineTo(Seq<Letter>),
}

impl View for Cmd {
    type V = PathCmd;

    open spec fn view(&self) -> PathCmd {
        match self {
            Cmd::MoveTo(w) => PathCmd::MoveTo(w@),
            Cmd::LineTo(w) => PathCmd::LineTo(w@),
        }
    }
}

/// A pending node of the traversal: the word of the prefix, ending in the
/// letter last taken, and the depth still allowed below it.
#[derive(Debug)]
pub struct Frame {
    pub level: i64,
    pub word: Vec<Letter>,
}

impl View for Frame {
    type V = (int, Seq<Letter>);

    open spec fn view(&self) -> (int, Seq<Letter>) {
        (self.level as int, self.word@)
    }
}

/// The abstract state of a traversal: the depth it was started with, the
/// pending frames (the last one is visited next) and the path so far.
pub struct WalkState {
    pub max_level: int,
    pub frames: Seq<(int, Seq<Letter>)>,
    pub cmds: Seq<PathCmd>,
}

/// The three children of frame `(level, w)`, stacked so that the first child
/// in drawing order is visited first.
pub open spec fn child_frames(level: int, w: Seq<Letter>) -> Seq<(int, Seq<Letter>)> {
    let (c1, c2, c3) = successors(w.last());
    seq![(level - 1, w.push(c3)), (level - 1, w.push(c2)), (level - 1, w.push(c1))]
}

/// The four top-level frames, stacked so that they are visited in the order
/// a, b^-1, a^-1, b.
pub open spec fn start_frames(level: int) -> Seq<(int, Seq<Letter>)> {
    seq![
        (level, seq![Letter::B]),
        (level, seq![Letter::AI]),
        (level, seq![Letter::BI]),
        (level, seq![Letter::A]),
    ]
}

/// One decision of the traversal on the frame on top. It ends there (and
/// plots its endpoint) when the depth is spent or when the endpoint lies
/// close to the last point plotted; otherwise its three children replace it.
/// The flag says whether a point was plotted.
pub open spec fn next(
    frames: Seq<(int, Seq<Letter>)>,
    cmds: Seq<PathCmd>,
    close: bool,
) -> (Seq<(int, Seq<Letter>)>, Seq<PathCmd>, bool) {
    if frames.len() == 0 {
        (frames, cmds, false)
    } else {
        let (level, w) = frames.last();
        if level <= 0 || close {
            (frames.drop_last(), cmds.push(PathCmd::LineTo(w)), true)
        } else {
            (frames.drop_last() + child_frames(level, w), cmds, false)
        }
    }
}

/// A pending frame is a non-empty reduced word whose depth is what remains
/// of `max_level` after its letters.
pub open spec fn frame_ok(max_level: int, f: (int, Seq<Letter>)) -> bool {
    &&& f.1.len() >= 1
    &&& is_reduced(f.1)
    &&& f.0 == max_level - f.1.len()
}

/// A plotted segment ends at the endpoint of a non-empty reduced word.
pub open spec fn line_ok(c: PathCmd) -> bool {
    match c {
        PathCmd::MoveTo(_) => false,
        PathCmd::LineTo(w) => w.len() >= 1 && is_reduced(w),
    }
}

/// The depth-first traversal of reduced words that draws the limit set.
pub struct Walk {
    max_level: i64,
    stack: Vec<Frame>,
    path: Vec<Cmd>,
}

impl View for Walk {
    type V = WalkState;

    closed spec fn view(&self) -> WalkState {
        WalkState {
            max_level: self.max_level as int,
            frames: self.stack@.map_values(|f: Frame| f@),
            cmds: self.path@.map_values(|c: Cmd| c@),
        }
    }
}

proof fn lemma_push_reduced(w: Seq<Letter>, c: Letter)
    requires
        w.len() >= 1,
        is_reduced(w),
        c != inverse(w.last()),
    ensures
        is_reduced(w.push(c)),
{
    let v = w.push(c);
    assert forall|i: int| 0 <= i < v.len() - 1 implies #[trigger] v[i + 1] != inverse(v[i]) by {
        if i < w.len() - 1 {
            assert(v[i + 1] == w[i + 1] && v[i] == w[i]);
        }
    }
}

/// The word `w` followed by `c`.
fn extend(w: &Vec<Letter>, c: Letter) -> (r: Vec<Letter>)
    ensures
        r@ == w@.push(c),
{
    let mut r: Vec<Letter> = Vec::new();
    let mut i: usize = 0;
    while i < w.len()
        invariant
            i <= w.len(),
            r@ == w@.subrange(0, i as int),
        decreases w.len() - i,
    {
        r.push(w[i]);
        i = i + 1;
    }
    assert(w@.subrange(0, w.len() as int) =~= w@);
    r.push(c);
    r
}

impl Walk {
    /// Every state that the public operations reach: one `move_to` to the
    /// seed, then segments only, and well-formed pending frames.
    pub open spec fn wf(&self) -> bool {
        let s = self@;
        &&& s.cmds.len() >= 1
        &&& s.cmds[0] == PathCmd::MoveTo(Seq::empty())
        &&& forall|i: int| 1 <= i < s.cmds.len() ==> line_ok(#[trigger] s.cmds[i])
        &&& forall|i: int| 0 <= i < s.frames.len() ==> frame_ok(s.max_level, #[trigger] s.frames[i])
        &&& s.cmds.len() + leaf_count(s.frames) <= 1 + 4 * pow3(s.max_level - 1)
    }

    /// Plots the point named by `w`: the first point starts the path, every
    /// later one adds a segment to it.
    fn line(&mut self, w: Vec<Letter>)
        ensures
            final(self)@.max_level == old(self)@.max_level,
            final(self)@.frames == old(self)@.frames,
            final(self)@.cmds == old(self)@.cmds.push(
                if old(self)@.cmds.len() == 0 {
                    PathCmd::MoveTo(w@)
                } else {
                    PathCmd::LineTo(w@)
                },
            ),
    {
        let c = if self.path.len() == 0 {
            Cmd::MoveTo(w)
        } else {
            Cmd::LineTo(w)
        };
        self.path.push(c);
        assert(self@.cmds =~= old(self)@.cmds.push(c@));
    }

    /// Starts a traversal of depth `max_level`: the path holds the seed
    /// point, and the four top-level branches wait in the order
    /// a, b^-1, a^-1, b.
    pub fn new(max_level: i64) -> (r: Walk)
        requires
            max_level > i64::MIN,
        ensures
            r.wf(),
            r@.max_level == max_level,
            r@.frames == start_frames(max_level - 1),
            r@.cmds == seq![PathCmd::MoveTo(Seq::<Letter>::empty())],
    {
        let mut g = Walk { max_level, stack: Vec::new(), path: Vec::new() };
        assert(g@.cmds =~= Seq::empty());
        assert(g@.frames =~= Seq::empty());
        g.line(Vec::new());
        let level = max_level - 1;
        let wb = vec![Letter::B];
        let wai = vec![Letter::AI];
        let wbi = vec![Letter::BI];
        let wa = vec![Letter::A];
        assert(wb@ =~= seq![Letter::B] && wai@ =~= seq![Letter::AI]);
        assert(wbi@ =~= seq![Letter::BI] && wa@ =~= seq![Letter::A]);
        g.stack.push(Frame { level, word: wb });
        g.stack.push(Frame { level, word: wai });
        g.stack.push(Frame { level, word: wbi });
        g.stack.push(Frame { level, word: wa });
        assert(g@.frames.len() == 4);
        assert(g@.frames[0] == g.stack@[0]@);
        assert(g@.frames[3] == g.stack@[3]@);
        assert(g@.frames =~= start_frames(max_level - 1));
        assert(g@.cmds =~= seq![PathCmd::MoveTo(Seq::<Letter>::empty())]);
        proof {
            lemma_start_count(max_level as int);
        }
        g
    }

    /// The depth the traversal was started with.
    pub fn max_level(&self) -> (r: i64)
        ensures
            r == self@.max_level,
    {
        self.max_level
    }

    /// The frame that the next decision is about, if any is left.
    pub fn current(&self) -> (r: Option<&Frame>)
        ensures
            match r {
                None => self@.frames.len() == 0,
                Some(f) => self@.frames.len() > 0 && f@ == self@.frames.last(),
            },
    {
        if self.stack.len() == 0 {
            None
        } else {
            Some(&self.stack[self.stack.len() - 1])
        }
    }

    /// The path so far, as symbolic commands.
    pub fn commands(&self) -> (r: &Vec<Cmd>)
        ensures
            r@.map_values(|c: Cmd| c@) == self@.cmds,
    {
        &self.path
    }

    /// Takes the decision on the frame on top; `close` says whether its
    /// endpoint lies within the drawing tolerance of the last point plotted.
    /// Returns whether a point was plotted.
    pub fn step(&mut self, close: bool) -> (emitted: bool)
        requires
            old(self).wf(),
        ensures
            final(self).wf(),
            final(self)@.max_level == old(self)@.max_level,
            (final(self)@.frames, final(self)@.cmds, emitted) == next(
                old(self)@.frames,
                old(self)@.cmds,
                close,
            ),
    {
        let ghost s0 = self@;
        proof {
            if s0.frames.len() > 0 {
                assert(frame_ok(s0.max_level, s0.frames[s0.frames.len() - 1]));
                lemma_step_keeps_count(s0.frames, s0.cmds, close);
            }
        }
        match self.stack.pop() {
            None => {
                assert(s0.frames.len() == 0);
                false
            },
            Some(f) => {
                assert(self@.frames =~= s0.frames.drop_last());
                assert(f@ == s0.frames.last());
                if f.level <= 0 || close {
                    let ghost s1 = self@;
                    self.line(f.word);
                    assert forall|i: int| 1 <= i < self@.cmds.len() implies line_ok(
                        #[trigger] self@.cmds[i],
                    ) by {
                        if i < s1.cmds.len() {
                            assert(self@.cmds[i] == s1.cmds[i]);
                        }
                    }
                    assert forall|i: int| 0 <= i < self@.frames.len() implies frame_ok(
                        self@.max_level,
                        #[trigger] self@.frames[i],
                    ) by {
                        assert(self@.frames[i] == s0.frames[i]);
                    }
                    true
                } else {
                    let last = f.word[f.word.len() - 1];
                    let (c1, c2, c3) = last.children();
                    let level = f.level - 1;
                    let w3 = extend(&f.word, c3);
                    let w2 = extend(&f.word, c2);
                    let w1 = extend(&f.word, c1);
                    proof {
                        lemma_push_reduced(f.word@, c1);
                        lemma_push_reduced(f.word@, c2);
                        lemma_push_reduced(f.word@, c3);
                    }
                    self.stack.push(Frame { level, word: w3 });
                    self.stack.push(Frame { level, word: w2 });
                    self.stack.push(Frame { level, word: w1 });
                    assert(self@.frames =~= s0.frames.drop_last() + child_frames(
                        f.level as int,
                        f.word@,
                    ));
                    assert forall|i: int| 0 <= i < self@.frames.len() implies frame_ok(
                        self@.max_level,
                        #[trigger] self@.frames[i],
                    ) by {
                        if i < s0.frames.len() - 1 {
                            assert(self@.frames[i] == s0.frames[i]);
                        }
                    }
                    false
                }
            },
        }
    }
}

/// However the closeness answers fall, a traversal of depth `max_level`
/// plots at most `4 * 3^(max_level - 1)` points after the seed.
pub proof fn lemma_plotted_at_most(g: &Walk)
    requires
        g.wf(),
    ensures
        g@.cmds.len() - 1 <= 4 * pow3(g@.max_level - 1),
{
}

/// Whatever decisions were taken, the path of a traversal holds exactly one
/// `move_to`, to the seed point, at its start; every later command is a
/// `line_to` to the endpoint of a non-empty reduced word.
pub proof fn lemma_single_move_to(g: &Walk)
    requires
        g.wf(),
    ensures
        g@.cmds.len() >= 1,
        g@.cmds[0] == PathCmd::MoveTo(Seq::<Letter>::empty()),
        forall|i: int| 1 <= i < g@.cmds.len() ==> (#[trigger] g@.cmds[i] matches PathCmd::LineTo(w)
            && w.len() >= 1 && is_reduced(w)),
{
    assert forall|i: int| 1 <= i < g@.cmds.len() implies (#[trigger] g@.cmds[i] matches PathCmd::LineTo(w)
        && w.len() >= 1 && is_reduced(w)) by {
        assert(line_ok(g@.cmds[i]));
    }
}

} // verus!
