use vstd::prelude::*;

verus! {

/// What the aggregator observed on the channel of the voice it waits on.
#[derive(Debug, Clone, Copy, PartialEq, Eq, Structural)]
pub enum ChannelEvent {
    /// The voice sent its next waveform value.
    Value,
    /// The voice's channel is closed: its producer is done.
    Closed,
}

/// What the aggregator does after an event.
#[derive(Debug, Clone, Copy, PartialEq, Eq, Structural)]
pub enum FanInAction {
    /// Receive from the voice that `awaiting_voice` now names.
    Await,
    /// Every voice has delivered its value for this tick: mix and emit one
    /// sample, then receive from the first voice again.
    Emit,
    /// Every voice delivered all its values and closed: the render is complete.
    Finished,
    /// A voice closed early or sent more values than the render has ticks.
    Violation,
}

/// Where the aggregator stands.
#[derive(Debug, Clone, Copy, PartialEq, Eq, Structural)]
pub enum FanInPhase {
    /// Receiving one value per voice per tick.
    Collecting,
    /// All ticks are in; waiting for each channel to close.
    Draining,
    /// Every channel closed after the last tick.
    Finished,
    /// The producers broke the protocol.
    Failed,
}

/// The aggregator's state as plain numbers.
pub struct FanInModel {
    pub voices: nat,
    pub ticks: nat,
    /// Ticks emitted so far.
    pub tick: nat,
    /// The voice waited on within the current tick, or the next to close.
    pub voice: nat,
    pub phase: FanInPhase,
}

/// The aggregator before any event.
pub open spec fn initial_model(voices: nat, ticks: nat) -> FanInModel {
    FanInModel {
        voices,
        ticks,
        tick: 0,
        voice: 0,
        phase: if ticks == 0 {
            FanInPhase::Draining
        } else {
            FanInPhase::Collecting
        },
    }
}

/// One step of the round-robin fan-in: the state after `ev` and what to do.
pub open spec fn step_model(m: FanInModel, ev: ChannelEvent) -> (FanInModel, FanInAction) {
    let failed = FanInModel { phase: FanInPhase::Failed, ..m };
    match m.phase {
        FanInPhase::Collecting => match ev {
            ChannelEvent::Value => if m.voice + 1 < m.voices {
                (FanInModel { voice: m.voice + 1, ..m }, FanInAction::Await)
            } else {
                (
                    FanInModel {
                        tick: m.tick + 1,
                        voice: 0,
                        phase: if m.tick + 1 == m.ticks {
                            FanInPhase::Draining
                        } else {
                            FanInPhase::Collecting
                        },
                        ..m
                    },
                    FanInAction::Emit,
                )
            },
            ChannelEvent::Closed => (failed, FanInAction::Violation),
        },
        FanInPhase::Draining => match ev {
            ChannelEvent::Closed => if m.voice + 1 < m.voices {
                (FanInModel { voice: m.voice + 1, ..m }, FanInAction::Await)
            } else {
                (FanInModel { voice: 0, phase: FanInPhase::Finished, ..m }, FanInAction::Finished)
            },
            ChannelEvent::Value => (failed, FanInAction::Violation),
        },
        _ => (failed, FanInAction::Violation),
    }
}

/// The state after a sequence of events, and the number of samples emitted.
pub open spec fn run_model(m: FanInModel, events: Seq<ChannelEvent>) -> (FanInModel, nat)
    decreases events.len(),
{
    if events.len() == 0 {
        (m, 0)
    } else {
        let (next, action) = step_model(m, events[0]);
        let (last, emitted) = run_model(next, events.drop_first());
        (last, emitted + if action == FanInAction::Emit {
            1nat
        } else {
            0nat
        })
    }
}

/// The events of a render that keeps the protocol, in the order the aggregator
/// receives them: `ticks` rounds of one value from each voice, then one close
/// per voice.
pub open spec fn schedule(voices: nat, ticks: nat) -> Seq<ChannelEvent> {
    Seq::new(ticks * voices, |k: int| ChannelEvent::Value) + Seq::new(voices, |k: int| ChannelEvent::Closed)
}

/// The aggregator after a complete render.
pub open spec fn finished_model(voices: nat, ticks: nat) -> FanInModel {
    FanInModel { voices, ticks, tick: ticks, voice: 0, phase: FanInPhase::Finished }
}

/// `n` values in a row.
pub open spec fn values(n: nat) -> Seq<ChannelEvent> {
    Seq::new(n, |k: int| ChannelEvent::Value)
}

/// `n` closes in a row.
pub open spec fn closes(n: nat) -> Seq<ChannelEvent> {
    Seq::new(n, |k: int| ChannelEvent::Closed)
}

proof fn lemma_drain(m: FanInModel)
    requires
        m.phase == FanInPhase::Draining,
        m.voice < m.voices,
        m.tick == m.ticks,
    ensures
        run_model(m, closes((m.voices - m.voice) as nat)) == (finished_model(m.voices, m.ticks), 0nat),
    decreases m.voices - m.voice,
{
    let evs = closes((m.voices - m.voice) as nat);
    assert(evs[0] == ChannelEvent::Closed);
    let (next, action) = step_model(m, ChannelEvent::Closed);
    if m.voice + 1 < m.voices {
        assert(evs.drop_first() =~= closes((next.voices - next.voice) as nat));
        lemma_drain(next);
    } else {
        assert(evs.drop_first() =~= Seq::<ChannelEvent>::empty());
        assert(run_model(next, Seq::<ChannelEvent>::empty()) == (next, 0nat));
    }
}

proof fn lemma_collect(m: FanInModel)
    requires
        m.phase == FanInPhase::Collecting,
        m.voice < m.voices,
        m.tick < m.ticks,
    ensures
        run_model(m, values(((m.ticks - m.tick) * m.voices - m.voice) as nat) + closes(m.voices)) == (
            finished_model(m.voices, m.ticks),
            (m.ticks - m.tick) as nat,
        ),
    decreases (m.ticks - m.tick) * m.voices - m.voice,
{
    let ki: int = (m.ticks - m.tick) * m.voices - m.voice;
    assert(ki >= 1) by (nonlinear_arith)
        requires
            ki == (m.ticks - m.tick) * m.voices - m.voice,
            m.tick < m.ticks,
            m.voice < m.voices,
    ;
    let k = ki as nat;
    let evs = values(k) + closes(m.voices);
    let (next, action) = step_model(m, ChannelEvent::Value);
    assert(evs[0] == ChannelEvent::Value);
    assert((k - 1) as nat == ((next.ticks - next.tick) * next.voices - next.voice) as nat) by (nonlinear_arith)
        requires
            k == (m.ticks - m.tick) * m.voices - m.voice,
            m.voice + 1 < m.voices ==> next.tick == m.tick && next.voice == m.voice + 1,
            m.voice + 1 >= m.voices ==> next.tick == m.tick + 1 && next.voice == 0 && m.voice + 1 == m.voices,
            next.voices == m.voices,
            next.ticks == m.ticks,
    ;
    assert(evs.drop_first() =~= values((k - 1) as nat) + closes(m.voices));
    if next.phase == FanInPhase::Collecting {
        lemma_collect(next);
    } else {
        assert(k - 1 == 0) by (nonlinear_arith)
            requires
                k - 1 == (next.ticks - next.tick) * next.voices - next.voice,
                next.ticks == next.tick,
                next.voice == 0,
        ;
        assert(values((k - 1) as nat) + closes(m.voices) =~= closes((next.voices - next.voice) as nat));
        lemma_drain(next);
    }
}

/// A render that keeps the protocol, each of `voices` producers sending
/// exactly `ticks` values and then closing, ends with the aggregator finished
/// after emitting exactly `ticks` samples: as many as the sequential mixer
/// writes for the same parameters.
pub proof fn lemma_schedule_completes(voices: nat, ticks: nat)
    requires
        voices >= 1,
    ensures
        run_model(initial_model(voices, ticks), schedule(voices, ticks)) == (finished_model(voices, ticks), ticks),
{
    let m = initial_model(voices, ticks);
    if ticks == 0 {
        assert(ticks * voices == 0) by (nonlinear_arith)
            requires
                ticks == 0,
        ;
        assert(schedule(voices, ticks) =~= closes(voices));
        lemma_drain(m);
    } else {
        assert(schedule(voices, ticks) =~= values(((m.ticks - m.tick) * m.voices - m.voice) as nat) + closes(
            voices,
        ));
        lemma_collect(m);
    }
}

/// The events that take a state to the finish, as the protocol has them.
pub open spec fn remaining(m: FanInModel) -> Seq<ChannelEvent> {
    match m.phase {
        FanInPhase::Collecting => values(((m.ticks - m.tick) * m.voices - m.voice) as nat) + closes(m.voices),
        FanInPhase::Draining => closes((m.voices - m.voice) as nat),
        _ => Seq::empty(),
    }
}

/// Counters of a model in range, as `FanIn::wf` has them.
pub open spec fn model_ok(m: FanInModel) -> bool {
    &&& m.voices >= 1
    &&& m.voice < m.voices
    &&& m.tick <= m.ticks
    &&& m.phase == FanInPhase::Collecting ==> m.tick < m.ticks
    &&& m.phase == FanInPhase::Draining ==> m.tick == m.ticks
}

proof fn lemma_failed_stays(m: FanInModel, events: Seq<ChannelEvent>)
    requires
        m.phase == FanInPhase::Failed,
    ensures
        run_model(m, events).0.phase == FanInPhase::Failed,
    decreases events.len(),
{
    if events.len() > 0 {
        lemma_failed_stays(step_model(m, events[0]).0, events.drop_first());
    }
}

proof fn lemma_finish_needs_remaining(m: FanInModel, events: Seq<ChannelEvent>)
    requires
        model_ok(m),
        m.phase != FanInPhase::Failed,
        run_model(m, events).0.phase == FanInPhase::Finished,
    ensures
        events == remaining(m),
    decreases events.len(),
{
    if events.len() == 0 {
        assert(remaining(m) =~= Seq::<ChannelEvent>::empty()) by {
            assert(m.phase == FanInPhase::Finished);
        }
    } else {
        let (next, action) = step_model(m, events[0]);
        if next.phase == FanInPhase::Failed {
            lemma_failed_stays(next, events.drop_first());
        } else {
            lemma_finish_needs_remaining(next, events.drop_first());
            if m.phase == FanInPhase::Collecting {
                let ki: int = (m.ticks - m.tick) * m.voices - m.voice;
                assert(ki >= 1 && ki - 1 == (next.ticks - next.tick) * next.voices - next.voice) by (nonlinear_arith)
                    requires
                        ki == (m.ticks - m.tick) * m.voices - m.voice,
                        m.tick < m.ticks,
                        m.voice < m.voices,
                        m.voice + 1 < m.voices ==> next.tick == m.tick && next.voice == m.voice + 1,
                        m.voice + 1 >= m.voices ==> next.tick == m.tick + 1 && next.voice == 0 && m.voice + 1
                            == m.voices,
                        next.voices == m.voices,
                        next.ticks == m.ticks,
                ;
                if next.phase == FanInPhase::Draining {
                    assert(ki - 1 == 0) by (nonlinear_arith)
                        requires
                            ki - 1 == (next.ticks - next.tick) * next.voices - next.voice,
                            next.ticks == next.tick,
                            next.voice == 0,
                    ;
                }
                let k = ki as nat;
                assert(events[0] == ChannelEvent::Value);
                assert(remaining(m) =~= seq![ChannelEvent::Value] + remaining(next)) by {
                    assert(values(k) =~= seq![ChannelEvent::Value] + values((k - 1) as nat));
                    if next.phase == FanInPhase::Draining {
                        assert(values((k - 1) as nat) =~= Seq::<ChannelEvent>::empty());
                        assert(remaining(next) =~= closes(m.voices));
                    }
                }
            } else {
                assert(events[0] == ChannelEvent::Closed);
                assert(remaining(m) =~= seq![ChannelEvent::Closed] + remaining(next));
            }
            assert(events =~= seq![events[0]] + events.drop_first());
        }
    }
}

/// Only a render that keeps the protocol finishes: if the aggregator ends
/// finished, every producer sent exactly `ticks` values and then closed. A
/// producer that sends fewer or more leaves it failed or still waiting.
pub proof fn lemma_only_schedule_completes(voices: nat, ticks: nat, events: Seq<ChannelEvent>)
    requires
        voices >= 1,
        run_model(initial_model(voices, ticks), events).0.phase == FanInPhase::Finished,
    ensures
        events == schedule(voices, ticks),
{
    let m = initial_model(voices, ticks);
    lemma_finish_needs_remaining(m, events);
    if ticks == 0 {
        assert(ticks * voices == 0) by (nonlinear_arith)
            requires
                ticks == 0,
        ;
    }
    assert(remaining(m) =~= schedule(voices, ticks));
}

/// The aggregator of the concurrent mixer: it takes one value from every voice
/// per tick, round robin, emits one sample per completed tick, and then
/// expects every channel to close.
pub struct FanIn {
    voices: usize,
    ticks: u64,
    tick: u64,
    voice: usize,
    phase: FanInPhase,
}

impl View for FanIn {
    type V = FanInModel;

    closed spec fn view(&self) -> FanInModel {
        FanInModel {
            voices: self.voices as nat,
            ticks: self.ticks as nat,
            tick: self.tick as nat,
            voice: self.voice as nat,
            phase: self.phase,
        }
    }
}

impl FanIn {
    /// Counters in range: the voice waited on exists, and the tick count agrees
    /// with the phase.
    pub open spec fn wf(&self) -> bool {
        &&& self@.voices >= 1
        &&& self@.voice < self@.voices
        &&& self@.tick <= self@.ticks
        &&& self@.ticks <= u64::MAX
        &&& self@.voices <= usize::MAX
        &&& self@.phase == FanInPhase::Collecting ==> self@.tick < self@.ticks
        &&& self@.phase == FanInPhase::Draining ==> self@.tick == self@.ticks
    }

    /// An aggregator for `voices` voices of `ticks` samples each.
    pub fn new(voices: usize, ticks: u64) -> (r: FanIn)
        requires
            voices >= 1,
        ensures
            r.wf(),
            r@ == initial_model(voices as nat, ticks as nat),
    {
        FanIn {
            voices,
            ticks,
            tick: 0,
            voice: 0,
            phase: if ticks == 0 {
                FanInPhase::Draining
            } else {
                FanInPhase::Collecting
            },
        }
    }

    /// The voice whose channel to receive from next.
    pub fn awaiting_voice(&self) -> (r: usize)
        ensures
            r == self@.voice,
    {
        self.voice
    }

    /// The current phase.
    pub fn phase(&self) -> (r: FanInPhase)
        ensures
            r == self@.phase,
    {
        self.phase
    }

    /// Samples emitted so far.
    pub fn ticks_done(&self) -> (r: u64)
        ensures
            r == self@.tick,
    {
        self.tick
    }

    /// Takes what was observed on the awaited channel and says what to do next.
    pub fn step(&mut self, ev: ChannelEvent) -> (r: FanInAction)
        requires
            old(self).wf(),
        ensures
            final(self).wf(),
            (final(self)@, r) == step_model(old(self)@, ev),
    {
        match self.phase {
            FanInPhase::Collecting => match ev {
                ChannelEvent::Value => {
                    if self.voice + 1 < self.voices {
                        self.voice = self.voice + 1;
                        FanInAction::Await
                    } else {
                        self.tick = self.tick + 1;
                        self.voice = 0;
                        if self.tick == self.ticks {
                            self.phase = FanInPhase::Draining;
                        }
                        FanInAction::Emit
                    }
                },
                ChannelEvent::Closed => {
                    self.phase = FanInPhase::Failed;
                    FanInAction::Violation
                },
            },
            FanInPhase::Draining => match ev {
                ChannelEvent::Closed => {
                    if self.voice + 1 < self.voices {
                        self.voice = self.voice + 1;
                        FanInAction::Await
                    } else {
                        self.voice = 0;
                        self.phase = FanInPhase::Finished;
                        FanInAction::Finished
                    }
                },
                ChannelEvent::Value => {
                    self.phase = FanInPhase::Failed;
                    FanInAction::Violation
                },
            },
            _ => {
                self.phase = FanInPhase::Failed;
                FanInAction::Violation
            },
        }
    }
}

} // verus!
