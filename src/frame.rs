//! The fixed order of GPU work in one frame: fade the canvas out, advect the
//! particles, then draw the canvas.
use vstd::prelude::*;

verus! {

/// Where a frame stands.
#[derive(Clone, Copy, Debug, PartialEq, Eq, Structural)]
pub enum FramePhase {
    Idle,
    ComputeFadeOut,
    ComputeAdvectParticles,
    RenderPass,
}

/// A piece of GPU work for the frame loop to record.
#[derive(Clone, Copy, Debug, PartialEq, Eq, Structural)]
pub enum FrameAction {
    /// Dispatch the compute program that dampens the canvas.
    DispatchFadeOut,
    /// Dispatch the compute program that moves the particles and stamps them on the canvas.
    DispatchAdvect,
    /// Record the render pass that clears the targets and draws the canvas quad.
    DrawCanvas,
}

/// One transition: the next phase, and the work it asks for (none when the
/// frame is done and the machine is idle again).
pub open spec fn step(p: FramePhase) -> (FramePhase, Option<FrameAction>) {
    match p {
        FramePhase::Idle => (FramePhase::ComputeFadeOut, Some(FrameAction::DispatchFadeOut)),
        FramePhase::ComputeFadeOut => (FramePhase::ComputeAdvectParticles, Some(FrameAction::DispatchAdvect)),
        FramePhase::ComputeAdvectParticles => (FramePhase::RenderPass, Some(FrameAction::DrawCanvas)),
        FramePhase::RenderPass => (FramePhase::Idle, None),
    }
}

/// The work of one frame, in order.
pub open spec fn frame_order() -> Seq<FrameAction> {
    seq![FrameAction::DispatchFadeOut, FrameAction::DispatchAdvect, FrameAction::DrawCanvas]
}

/// The phase after `n` transitions from `p`, and the work they asked for.
pub open spec fn run(p: FramePhase, n: nat) -> (FramePhase, Seq<FrameAction>)
    decreases n,
{
    if n == 0 {
        (p, Seq::empty())
    } else {
        let (q, a) = step(p);
        let (r, s) = run(q, (n - 1) as nat);
        match a {
            Some(x) => (r, seq![x] + s),
            None => (r, s),
        }
    }
}

/// The work of `k` frames: the order of one frame, `k` times.
pub open spec fn frames(k: nat) -> Seq<FrameAction>
    decreases k,
{
    if k == 0 {
        Seq::empty()
    } else {
        frame_order() + frames((k - 1) as nat)
    }
}

/// Every frame that starts idle asks for fade-out, advection and drawing, in
/// that order and nothing else, and ends idle: over `k` frames the work is
/// that order `k` times.
pub proof fn lemma_every_frame_in_order(k: nat)
    ensures
        run(FramePhase::Idle, 4 * k) == (FramePhase::Idle, frames(k)),
    decreases k,
{
    if k > 0 {
        lemma_every_frame_in_order((k - 1) as nat);
        let n = 4 * k;
        assert(run(FramePhase::RenderPass, (n - 3) as nat) == run(FramePhase::Idle, 4 * ((k - 1) as nat)));
        assert(run(FramePhase::ComputeAdvectParticles, (n - 2) as nat).1 == seq![FrameAction::DrawCanvas] + frames((k - 1) as nat));
        assert(run(FramePhase::ComputeFadeOut, (n - 1) as nat).1 == seq![FrameAction::DispatchAdvect] + (seq![FrameAction::DrawCanvas] + frames((k - 1) as nat)));
        assert(seq![FrameAction::DispatchFadeOut] + (seq![FrameAction::DispatchAdvect] + (seq![FrameAction::DrawCanvas] + frames((k - 1) as nat))) =~= frames(k));
    }
}

/// The per-frame sequencer that the frame loop asks for its next piece of work.
#[derive(Debug)]
pub struct FrameSequencer {
    phase: FramePhase,
}

impl View for FrameSequencer {
    type V = FramePhase;

    closed spec fn view(&self) -> FramePhase {
        self.phase
    }
}

impl FrameSequencer {
    /// A sequencer between frames.
    pub fn new() -> (r: Self)
        ensures
            r@ == FramePhase::Idle,
    {
        FrameSequencer { phase: FramePhase::Idle }
    }

    /// The phase the frame is in.
    pub fn phase(&self) -> (r: FramePhase)
        ensures
            r == self@,
    {
        self.phase
    }

    /// Moves to the next phase and returns the work it asks for; `None` when
    /// the frame is complete.
    pub fn advance(&mut self) -> (r: Option<FrameAction>)
        ensures
            (final(self)@, r) == step(old(self)@),
    {
        let (next, action) = match self.phase {
            FramePhase::Idle => (FramePhase::ComputeFadeOut, Some(FrameAction::DispatchFadeOut)),
            FramePhase::ComputeFadeOut => (FramePhase::ComputeAdvectParticles, Some(FrameAction::DispatchAdvect)),
            FramePhase::ComputeAdvectParticles => (FramePhase::RenderPass, Some(FrameAction::DrawCanvas)),
            FramePhase::RenderPass => (FramePhase::Idle, None),
        };
        self.phase = next;
        action
    }

    /// Runs the sequencer through one whole frame from idle, and returns the
    /// work it asked for, in order.
    pub fn frame(&mut self) -> (r: Vec<FrameAction>)
        requires
            old(self)@ == FramePhase::Idle,
        ensures
            final(self)@ == FramePhase::Idle,
            r@ == frame_order(),
    {
        let mut r: Vec<FrameAction> = Vec::new();
        let mut n: usize = 0;
        while n < 4
            invariant
                n <= 4,
                (self@, r@) == run(FramePhase::Idle, n as nat),
            decreases 4 - n,
        {
            proof {
                lemma_run_snoc(FramePhase::Idle, n as nat);
            }
            match self.advance() {
                Some(a) => r.push(a),
                None => {},
            }
            n = n + 1;
        }
        proof {
            lemma_every_frame_in_order(1);
            reveal_with_fuel(frames, 2);
            assert(frames(1) =~= frame_order());
        }
        r
    }
}

/// One more transition appends its work to that of the earlier ones.
proof fn lemma_run_snoc(p: FramePhase, n: nat)
    ensures
        run(p, n + 1) == ({
            let (q, s) = run(p, n);
            let (q2, a) = step(q);
            (q2, match a {
                Some(x) => s.push(x),
                None => s,
            })
        }),
    decreases n,
{
    reveal_with_fuel(run, 2);
    if n > 0 {
        let (q, a) = step(p);
        lemma_run_snoc(q, (n - 1) as nat);
        assert(run(q, n) == ({
            let (q1, s1) = run(q, (n - 1) as nat);
            let (q2, a2) = step(q1);
            (q2, match a2 {
                Some(x) => s1.push(x),
                None => s1,
            })
        }));
        let (q1, s1) = run(q, (n - 1) as nat);
        let (_, a1) = step(q1);
        match a {
            Some(x) => match a1 {
                Some(y) => {
                    assert(seq![x] + s1.push(y) =~= (seq![x] + s1).push(y));
                },
                None => {},
            },
            None => {},
        }
    } else {
        let (q, a) = step(p);
        match a {
            Some(x) => {
                assert(seq![x] + Seq::<FrameAction>::empty() =~= Seq::<FrameAction>::empty().push(x));
            },
            None => {},
        }
    }
}

} // verus!
