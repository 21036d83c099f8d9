use vstd::prelude::*;
use crate::classify::COLOR_COUNT;

verus! {

/// The sequence length at which the device stops and the game is won.
pub const WIN_LENGTH: usize = 100;

/// The single blocking operation the driver must perform next. Every wait
/// polls the classifier against live readings; the hand moves are plain
/// bus writes.
#[derive(PartialEq, Eq, Structural, Clone, Copy, Debug)]
pub enum Step {
    WaitLightOn(usize),
    WaitLightOff(usize),
    WaitAnyLightOn,
    LowerHand(usize),
    LiftHand(usize),
    Won,
}

/// The driver's report once the requested step has completed. A finished
/// scan for any light reports which color came on; everything else is a
/// bare completion.
#[derive(PartialEq, Eq, Structural, Clone, Copy, Debug)]
pub enum Signal {
    Done,
    Detected(usize),
}

/// Where the protocol stands inside the current round: re-observing the
/// known sequence, watching for the one new color, or replaying the grown
/// sequence by actuation.
#[derive(PartialEq, Eq, Structural, Clone, Copy, Debug)]
pub enum Phase {
    ObserveOn { index: usize },
    ObserveOff { index: usize },
    AwaitNew,
    AwaitNewOff { color: usize },
    ReplayLower { index: usize },
    ReplayOn { index: usize },
    ReplayLift { index: usize },
    ReplayOff { index: usize },
    Won,
}

/// A protocol state is well formed when the sequence holds only real
/// colors and never exceeds the winning length, every in-round position
/// points into the sequence, a round is only under way while the game can
/// still grow, and the won state carries a full sequence.
pub open spec fn wf_state(phase: Phase, s: Seq<usize>) -> bool {
    &&& s.len() <= WIN_LENGTH
    &&& (forall|i: int| 0 <= i < s.len() ==> s[i] < COLOR_COUNT)
    &&& match phase {
        Phase::ObserveOn { index } => index < s.len() && s.len() < WIN_LENGTH,
        Phase::ObserveOff { index } => index < s.len() && s.len() < WIN_LENGTH,
        Phase::AwaitNew => s.len() < WIN_LENGTH,
        Phase::AwaitNewOff { color } => color < COLOR_COUNT && s.len() < WIN_LENGTH,
        Phase::ReplayLower { index } => index < s.len(),
        Phase::ReplayOn { index } => index < s.len(),
        Phase::ReplayLift { index } => index < s.len(),
        Phase::ReplayOff { index } => index < s.len(),
        Phase::Won => s.len() == WIN_LENGTH,
    }
}

/// The step the driver must perform in a given state.
pub open spec fn step_of(phase: Phase, s: Seq<usize>) -> Step {
    match phase {
        Phase::ObserveOn { index } => Step::WaitLightOn(s[index as int]),
        Phase::ObserveOff { index } => Step::WaitLightOff(s[index as int]),
        Phase::AwaitNew => Step::WaitAnyLightOn,
        Phase::AwaitNewOff { color } => Step::WaitLightOff(color),
        Phase::ReplayLower { index } => Step::LowerHand(s[index as int]),
        Phase::ReplayOn { index } => Step::WaitLightOn(s[index as int]),
        Phase::ReplayLift { index } => Step::LiftHand(s[index as int]),
        Phase::ReplayOff { index } => Step::WaitLightOff(s[index as int]),
        Phase::Won => Step::Won,
    }
}

/// Which report a phase accepts: a scan for any light must report a real
/// detected color, the won game accepts nothing more, and every other step
/// reports bare completion.
pub open spec fn expected_signal(phase: Phase, signal: Signal) -> bool {
    match phase {
        Phase::AwaitNew => signal matches Signal::Detected(c) && c < COLOR_COUNT,
        Phase::Won => false,
        _ => signal == Signal::Done,
    }
}

/// The sequence after one transition: it grows by exactly the detected
/// color when that color's acknowledgement flash has ended, and is
/// untouched by every other step.
pub open spec fn seq_after(phase: Phase, s: Seq<usize>, signal: Signal) -> Seq<usize> {
    match phase {
        Phase::AwaitNewOff { color } => s.push(color),
        _ => s,
    }
}

/// The phase after one transition.
pub open spec fn phase_after(phase: Phase, s: Seq<usize>, signal: Signal) -> Phase {
    match phase {
        Phase::ObserveOn { index } => Phase::ObserveOff { index },
        Phase::ObserveOff { index } => if index + 1 < s.len() {
            Phase::ObserveOn { index: (index + 1) as usize }
        } else {
            Phase::AwaitNew
        },
        Phase::AwaitNew => match signal {
            Signal::Detected(color) => Phase::AwaitNewOff { color },
            Signal::Done => Phase::AwaitNew,
        },
        Phase::AwaitNewOff { color } => Phase::ReplayLower { index: 0 },
        Phase::ReplayLower { index } => Phase::ReplayOn { index },
        Phase::ReplayOn { index } => Phase::ReplayLift { index },
        Phase::ReplayLift { index } => Phase::ReplayOff { index },
        Phase::ReplayOff { index } => if index + 1 < s.len() {
            Phase::ReplayLower { index: (index + 1) as usize }
        } else if s.len() == WIN_LENGTH {
            Phase::Won
        } else {
            Phase::ObserveOn { index: 0 }
        },
        Phase::Won => Phase::Won,
    }
}

/// The orchestrator's state: the color sequence discovered so far and the
/// phase of the current round. The driver alternates `next_step` with the
/// physical work it names and `advance` with the outcome.
pub struct Game {
    sequence: Vec<usize>,
    phase: Phase,
}

impl Game {
    /// The colors discovered so far, in discovery order.
    pub closed spec fn colors(self) -> Seq<usize> {
        self.sequence@
    }

    /// The phase the protocol is currently in.
    pub closed spec fn at(self) -> Phase {
        self.phase
    }

    /// The game's invariant.
    pub open spec fn wf(self) -> bool {
        wf_state(self.at(), self.colors())
    }

    /// A fresh game: nothing observed yet, so the first round has no known
    /// sequence to re-observe and starts by watching for the new color.
    pub fn new() -> (game: Game)
        ensures
            game.wf(),
            game.at() == Phase::AwaitNew,
            game.colors() =~= Seq::<usize>::empty(),
    {
        Game { sequence: Vec::new(), phase: Phase::AwaitNew }
    }

    /// The step the driver must perform next.
    pub fn next_step(&self) -> (step: Step)
        requires
            self.wf(),
        ensures
            step == step_of(self.at(), self.colors()),
    {
        match self.phase {
            Phase::ObserveOn { index } => Step::WaitLightOn(self.sequence[index]),
            Phase::ObserveOff { index } => Step::WaitLightOff(self.sequence[index]),
            Phase::AwaitNew => Step::WaitAnyLightOn,
            Phase::AwaitNewOff { color } => Step::WaitLightOff(color),
            Phase::ReplayLower { index } => Step::LowerHand(self.sequence[index]),
            Phase::ReplayOn { index } => Step::WaitLightOn(self.sequence[index]),
            Phase::ReplayLift { index } => Step::LiftHand(self.sequence[index]),
            Phase::ReplayOff { index } => Step::WaitLightOff(self.sequence[index]),
            Phase::Won => Step::Won,
        }
    }

    /// Consume the driver's report for the current step and move to the
    /// next state of the protocol.
    pub fn advance(&mut self, signal: Signal)
        requires
            old(self).wf(),
            expected_signal(old(self).at(), signal),
        ensures
            final(self).wf(),
            final(self).at() == phase_after(old(self).at(), old(self).colors(), signal),
            final(self).colors() == seq_after(old(self).at(), old(self).colors(), signal),
    {
        match self.phase {
            Phase::ObserveOn { index } => {
                self.phase = Phase::ObserveOff { index };
            },
            Phase::ObserveOff { index } => {
                if index + 1 < self.sequence.len() {
                    self.phase = Phase::ObserveOn { index: index + 1 };
                } else {
                    self.phase = Phase::AwaitNew;
                }
            },
            Phase::AwaitNew => {
                match signal {
                    Signal::Detected(color) => {
                        self.phase = Phase::AwaitNewOff { color };
                    },
                    Signal::Done => {},
                }
            },
            Phase::AwaitNewOff { color } => {
                self.sequence.push(color);
                self.phase = Phase::ReplayLower { index: 0 };
            },
            Phase::ReplayLower { index } => {
                self.phase = Phase::ReplayOn { index };
            },
            Phase::ReplayOn { index } => {
                self.phase = Phase::ReplayLift { index };
            },
            Phase::ReplayLift { index } => {
                self.phase = Phase::ReplayOff { index };
            },
            Phase::ReplayOff { index } => {
                if index + 1 < self.sequence.len() {
                    self.phase = Phase::ReplayLower { index: index + 1 };
                } else if self.sequence.len() == WIN_LENGTH {
                    self.phase = Phase::Won;
                } else {
                    self.phase = Phase::ObserveOn { index: 0 };
                }
            },
            Phase::Won => {},
        }
    }

    /// How many colors the sequence holds so far.
    pub fn sequence_len(&self) -> (n: usize)
        ensures
            n == self.colors().len(),
    {
        self.sequence.len()
    }

    /// The color at one position of the discovered sequence.
    pub fn color_at(&self, index: usize) -> (color: usize)
        requires
            index < self.colors().len(),
        ensures
            color == self.colors()[index as int],
    {
        self.sequence[index]
    }

    /// Whether the game has been won.
    pub fn is_won(&self) -> (won: bool)
        ensures
            won == (self.at() is Won),
    {
        match self.phase {
            Phase::Won => true,
            _ => false,
        }
    }
}

/// Law: a transition preserves the protocol invariant, so in particular
/// the game can only ever stand won with a full-length sequence.
pub proof fn lemma_transition_preserves_wf(phase: Phase, s: Seq<usize>, signal: Signal)
    requires
        wf_state(phase, s),
        expected_signal(phase, signal),
    ensures
        wf_state(phase_after(phase, s, signal), seq_after(phase, s, signal)),
{
}

/// Law: a transition never reorders, rewrites, or truncates the sequence;
/// it appends exactly one color, exactly on the step that consumes the new
/// color's acknowledgement flash.
pub proof fn lemma_sequence_growth(phase: Phase, s: Seq<usize>, signal: Signal)
    requires
        wf_state(phase, s),
        expected_signal(phase, signal),
    ensures
        s.len() <= seq_after(phase, s, signal).len() <= s.len() + 1,
        forall|i: int| 0 <= i < s.len() ==> seq_after(phase, s, signal)[i] == s[i],
        (seq_after(phase, s, signal).len() == s.len() + 1) <==> (phase is AwaitNewOff),
{
}

/// Law: the game transitions to won exactly on the completion of the last
/// replay step of a sequence that has reached the winning length.
pub proof fn lemma_won_exactly_at_win_length(phase: Phase, s: Seq<usize>, signal: Signal)
    requires
        wf_state(phase, s),
        expected_signal(phase, signal),
    ensures
        (phase_after(phase, s, signal) is Won) <==> (phase matches Phase::ReplayOff { index }
            && index + 1 == s.len() && s.len() == WIN_LENGTH),
{
}

/// Law: when the finished replay leaves the sequence short of the winning
/// length, the protocol starts another observing round instead.
pub proof fn lemma_round_continues_below_win(s: Seq<usize>, index: usize)
    requires
        wf_state(Phase::ReplayOff { index }, s),
        index + 1 == s.len(),
        s.len() < WIN_LENGTH,
    ensures
        phase_after(Phase::ReplayOff { index }, s, Signal::Done) == (Phase::ObserveOn {
            index: 0usize,
        }),
{
}

/// Run the machine over a whole stream of driver reports, one transition
/// per report.
pub open spec fn run(phase: Phase, s: Seq<usize>, signals: Seq<Signal>) -> (Phase, Seq<usize>)
    decreases signals.len(),
{
    if signals.len() == 0 {
        (phase, s)
    } else {
        run(
            phase_after(phase, s, signals[0]),
            seq_after(phase, s, signals[0]),
            signals.drop_first(),
        )
    }
}

/// A stream of bare completions.
pub open spec fn repeat_done(n: nat) -> Seq<Signal> {
    Seq::new(n, |i: int| Signal::Done)
}

/// The driver reports that make up one whole round on a sequence of length
/// `n`: one on/off completion pair per known color, the detection of the
/// new color and the end of its flash, then four completions per replayed
/// position of the grown sequence.
pub open spec fn round_signals(n: nat, color: usize) -> Seq<Signal> {
    repeat_done(2 * n) + (seq![Signal::Detected(color)] + (seq![Signal::Done] + repeat_done(
        4 * (n + 1),
    )))
}

/// Where a round begins: with nothing discovered yet there is no known
/// sequence to re-observe, so the round starts on the new color.
pub open spec fn round_start(s: Seq<usize>) -> Phase {
    if s.len() == 0 {
        Phase::AwaitNew
    } else {
        Phase::ObserveOn { index: 0 }
    }
}

/// Running a machine over concatenated report streams runs it over the
/// first stream and continues from there over the second.
proof fn lemma_run_concat(phase: Phase, s: Seq<usize>, a: Seq<Signal>, b: Seq<Signal>)
    ensures
        run(phase, s, a + b) == run(run(phase, s, a).0, run(phase, s, a).1, b),
    decreases a.len(),
{
    if a.len() == 0 {
        assert(a + b =~= b);
    } else {
        assert((a + b)[0] == a[0]);
        assert((a + b).drop_first() =~= a.drop_first() + b);
        lemma_run_concat(
            phase_after(phase, s, a[0]),
            seq_after(phase, s, a[0]),
            a.drop_first(),
            b,
        );
    }
}

/// A completion stream shortens by one at each transition.
proof fn lemma_repeat_done_drop(n: nat)
    requires
        n > 0,
    ensures
        repeat_done(n).drop_first() =~= repeat_done((n - 1) as nat),
{
}

/// The observing loop: from position `index`, one on/off completion pair
/// per remaining known color consumes the device's demonstration and ends
/// watching for the new color, with the sequence untouched.
proof fn lemma_observe_loop(s: Seq<usize>, index: usize)
    requires
        wf_state(Phase::ObserveOn { index }, s),
    ensures
        run(Phase::ObserveOn { index }, s, repeat_done((2 * (s.len() - index)) as nat)) == (
        Phase::AwaitNew,
        s,
        ),
    decreases s.len() - index,
{
    let remaining = (2 * (s.len() - index)) as nat;
    let signals = repeat_done(remaining);
    let after_on = repeat_done((remaining - 1) as nat);
    let after_off = repeat_done((remaining - 2) as nat);
    assert(signals[0] == Signal::Done);
    assert(after_on[0] == Signal::Done);
    lemma_repeat_done_drop(remaining);
    lemma_repeat_done_drop((remaining - 1) as nat);
    assert(run(Phase::ObserveOn { index }, s, signals) == run(
        Phase::ObserveOff { index },
        s,
        after_on,
    ));
    let next = phase_after(Phase::ObserveOff { index }, s, Signal::Done);
    assert(run(Phase::ObserveOff { index }, s, after_on) == run(next, s, after_off));
    if index + 1 < s.len() {
        assert(next == (Phase::ObserveOn { index: (index + 1) as usize }));
        lemma_observe_loop(s, (index + 1) as usize);
        assert(after_off =~= repeat_done((2 * (s.len() - (index + 1))) as nat));
    } else {
        assert(next == Phase::AwaitNew);
        assert(after_off.len() == 0);
        assert(run(Phase::AwaitNew, s, after_off) == (Phase::AwaitNew, s));
    }
}

/// The replaying loop: from position `index`, four completions per
/// remaining position press every remaining button in sequence order; the
/// round then ends won exactly when the sequence is full, and otherwise
/// starts the next round's observing pass.
proof fn lemma_replay_loop(s: Seq<usize>, index: usize)
    requires
        wf_state(Phase::ReplayLower { index }, s),
    ensures
        run(Phase::ReplayLower { index }, s, repeat_done((4 * (s.len() - index)) as nat)) == (
        if s.len() == WIN_LENGTH {
            Phase::Won
        } else {
            Phase::ObserveOn { index: 0 }
        },
        s,
        ),
    decreases s.len() - index,
{
    let remaining = (4 * (s.len() - index)) as nat;
    let signals = repeat_done(remaining);
    let after_lower = repeat_done((remaining - 1) as nat);
    let after_on = repeat_done((remaining - 2) as nat);
    let after_lift = repeat_done((remaining - 3) as nat);
    let after_off = repeat_done((remaining - 4) as nat);
    assert(signals[0] == Signal::Done);
    assert(after_lower[0] == Signal::Done);
    assert(after_on[0] == Signal::Done);
    assert(after_lift[0] == Signal::Done);
    lemma_repeat_done_drop(remaining);
    lemma_repeat_done_drop((remaining - 1) as nat);
    lemma_repeat_done_drop((remaining - 2) as nat);
    lemma_repeat_done_drop((remaining - 3) as nat);
    assert(run(Phase::ReplayLower { index }, s, signals) == run(
        Phase::ReplayOn { index },
        s,
        after_lower,
    ));
    assert(run(Phase::ReplayOn { index }, s, after_lower) == run(
        Phase::ReplayLift { index },
        s,
        after_on,
    ));
    assert(run(Phase::ReplayLift { index }, s, after_on) == run(
        Phase::ReplayOff { index },
        s,
        after_lift,
    ));
    let next = phase_after(Phase::ReplayOff { index }, s, Signal::Done);
    assert(run(Phase::ReplayOff { index }, s, after_lift) == run(next, s, after_off));
    if index + 1 < s.len() {
        assert(next == (Phase::ReplayLower { index: (index + 1) as usize }));
        lemma_replay_loop(s, (index + 1) as usize);
        assert(after_off =~= repeat_done((4 * (s.len() - (index + 1))) as nat));
    } else {
        assert(after_off.len() == 0);
        assert(run(next, s, after_off) == (next, s));
    }
}

/// Law: one completed round appends exactly the one revealed color, in
/// place, and hands control to the start of the next round, except that a
/// sequence grown to the winning length ends the game won instead.
pub proof fn lemma_round(s: Seq<usize>, color: usize)
    requires
        wf_state(round_start(s), s),
        color < COLOR_COUNT,
    ensures
        ({
            let outcome = run(round_start(s), s, round_signals(s.len(), color));
            &&& outcome.1 == s.push(color)
            &&& outcome.0 == if s.len() + 1 == WIN_LENGTH {
                Phase::Won
            } else {
                round_start(s.push(color))
            }
        }),
{
    let n = s.len();
    let observe_part = repeat_done(2 * n);
    let detect_part = seq![Signal::Detected(color)];
    let ack_part = seq![Signal::Done];
    let replay_part = repeat_done(4 * (n + 1));
    lemma_run_concat(round_start(s), s, observe_part, detect_part + (ack_part + replay_part));
    if n == 0 {
        assert(observe_part.len() == 0);
        assert(run(round_start(s), s, observe_part) == (Phase::AwaitNew, s));
    } else {
        lemma_observe_loop(s, 0);
        assert(observe_part =~= repeat_done((2 * (s.len() - 0)) as nat));
    }
    lemma_run_concat(Phase::AwaitNew, s, detect_part, ack_part + replay_part);
    assert(detect_part.drop_first() =~= Seq::<Signal>::empty());
    assert(run(Phase::AwaitNewOff { color }, s, Seq::<Signal>::empty()) == (
        Phase::AwaitNewOff { color },
        s,
    ));
    assert(run(Phase::AwaitNew, s, detect_part) == (Phase::AwaitNewOff { color }, s));
    let grown = s.push(color);
    lemma_run_concat(Phase::AwaitNewOff { color }, s, ack_part, replay_part);
    assert(ack_part.drop_first() =~= Seq::<Signal>::empty());
    assert(run(Phase::ReplayLower { index: 0usize }, grown, Seq::<Signal>::empty()) == (
        Phase::ReplayLower { index: 0usize },
        grown,
    ));
    assert(run(Phase::AwaitNewOff { color }, s, ack_part) == (
        Phase::ReplayLower { index: 0usize },
        grown,
    ));
    assert(wf_state(Phase::ReplayLower { index: 0usize }, grown));
    lemma_replay_loop(grown, 0);
    assert(replay_part =~= repeat_done((4 * (grown.len() - 0)) as nat));
}

/// Law: replaying position `index` issues exactly a hand-lower, a wait for
/// the light to come on, a hand-lift, and a wait for it to go off, all on
/// the sequence's color at that position and in that order, without
/// touching the sequence, before moving to the next position.
pub proof fn lemma_replay_order(s: Seq<usize>, index: usize)
    requires
        wf_state(Phase::ReplayLower { index }, s),
    ensures
        step_of(Phase::ReplayLower { index }, s) == Step::LowerHand(s[index as int]),
        phase_after(Phase::ReplayLower { index }, s, Signal::Done) == (Phase::ReplayOn { index }),
        step_of(Phase::ReplayOn { index }, s) == Step::WaitLightOn(s[index as int]),
        phase_after(Phase::ReplayOn { index }, s, Signal::Done) == (Phase::ReplayLift { index }),
        step_of(Phase::ReplayLift { index }, s) == Step::LiftHand(s[index as int]),
        phase_after(Phase::ReplayLift { index }, s, Signal::Done) == (Phase::ReplayOff { index }),
        step_of(Phase::ReplayOff { index }, s) == Step::WaitLightOff(s[index as int]),
        seq_after(Phase::ReplayLower { index }, s, Signal::Done) == s,
        seq_after(Phase::ReplayOn { index }, s, Signal::Done) == s,
        seq_after(Phase::ReplayLift { index }, s, Signal::Done) == s,
        seq_after(Phase::ReplayOff { index }, s, Signal::Done) == s,
        index + 1 < s.len() ==> phase_after(Phase::ReplayOff { index }, s, Signal::Done)
            == (Phase::ReplayLower { index: (index + 1) as usize }),
{
}

} // verus!
