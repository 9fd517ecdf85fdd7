//! The capture loop's decision rules, as a state machine: each tick
//! checks the surface, polls the frame source, converts, presents.
//! The runtime loop performs the platform work and asks these
//! functions what to do next; everything it can decide is stated and
//! proved here.

use vstd::prelude::*;

verus! {

/// The loop's state: running, or stopped one of two ways.
#[derive(Clone, Copy, Debug, PartialEq, Eq, Structural)]
pub enum LoopState {
    /// The loop keeps ticking.
    Running,
    /// A clean stop: the user closed the surface or asked to exit, or
    /// the capture device was lost. The process exits with code 0.
    StoppedClean,
    /// A fatal stop: the presentation surface rejected a buffer. The
    /// process exits with a non-zero code.
    StoppedFatal,
}

/// What one poll of the frame source came back with.
#[derive(Clone, Copy, Debug, PartialEq, Eq, Structural)]
pub enum PollEvent {
    /// A raw frame is ready.
    Frame,
    /// No new frame yet; try again on the next tick.
    WouldBlock,
    /// The capture device is gone for good.
    DeviceLost,
}

/// What the loop does before polling: go on with the tick, or stop.
#[derive(Clone, Copy, Debug, PartialEq, Eq, Structural)]
pub enum Gate {
    /// The tick proceeds to the poll.
    Proceed,
    /// The tick stops the loop cleanly; nothing is polled or presented.
    Stop,
}

/// What the loop does with a poll's outcome.
#[derive(Clone, Copy, Debug, PartialEq, Eq, Structural)]
pub enum PollStep {
    /// Convert the frame and present it.
    Convert,
    /// Skip to the next tick without converting or presenting.
    Yield,
    /// Stop the loop cleanly.
    StopClean,
}

/// Everything the loop learns during one tick.
#[derive(Clone, Copy, Debug, PartialEq, Eq, Structural)]
pub struct TickInput {
    /// The presentation surface is still open.
    pub open: bool,
    /// The user asked to exit.
    pub cancel: bool,
    /// What the poll returned (consulted only if the tick polls).
    pub poll: PollEvent,
    /// The surface accepted the presented buffer (consulted only if
    /// the tick presents).
    pub present_ok: bool,
}

/// The tick polls the frame source: only when the surface is open and
/// no exit was requested.
pub open spec fn tick_polls(open: bool, cancel: bool) -> bool {
    open && !cancel
}

/// The tick converts a frame and presents it: only when it polls and
/// the poll yields a frame.
pub open spec fn tick_presents(t: TickInput) -> bool {
    tick_polls(t.open, t.cancel) && t.poll is Frame
}

/// The state after one tick taken from `Running`.
pub open spec fn tick_next(t: TickInput) -> LoopState {
    if !tick_polls(t.open, t.cancel) {
        LoopState::StoppedClean
    } else {
        match t.poll {
            PollEvent::WouldBlock => LoopState::Running,
            PollEvent::DeviceLost => LoopState::StoppedClean,
            PollEvent::Frame => if t.present_ok {
                LoopState::Running
            } else {
                LoopState::StoppedFatal
            },
        }
    }
}

/// The state after a run of ticks: stopped states are terminal, and a
/// running loop takes the ticks in order.
pub open spec fn run_ticks(s: LoopState, ticks: Seq<TickInput>) -> LoopState
    decreases ticks.len(),
{
    if ticks.len() == 0 {
        s
    } else if !(s is Running) {
        s
    } else {
        run_ticks(tick_next(ticks.first()), ticks.drop_first())
    }
}

/// Decides whether a tick goes on to poll the frame source. The loop
/// stops cleanly as soon as the surface is closed or an exit is
/// requested, before anything is polled or presented.
pub fn gate(open: bool, cancel: bool) -> (g: Gate)
    ensures
        g is Proceed <==> tick_polls(open, cancel),
        g is Stop ==> forall|p: PollEvent, ok: bool|
            tick_next(TickInput { open, cancel, poll: p, present_ok: ok }) == LoopState::StoppedClean,
{
    if open && !cancel {
        Gate::Proceed
    } else {
        Gate::Stop
    }
}

/// Decides what to do with a poll's outcome: convert a ready frame,
/// yield on `WouldBlock`, stop cleanly when the device is lost.
pub fn on_poll(ev: PollEvent) -> (s: PollStep)
    ensures
        s is Convert <==> ev is Frame,
        s is Yield <==> ev is WouldBlock,
        s is StopClean <==> ev is DeviceLost,
{
    match ev {
        PollEvent::Frame => PollStep::Convert,
        PollEvent::WouldBlock => PollStep::Yield,
        PollEvent::DeviceLost => PollStep::StopClean,
    }
}

/// The state a presenting tick ends in: running if the surface took
/// the buffer, fatally stopped if it did not.
pub fn after_present(t: TickInput) -> (s: LoopState)
    requires
        tick_presents(t),
    ensures
        s == tick_next(t),
        s is Running <==> t.present_ok,
        !t.present_ok ==> s == LoopState::StoppedFatal,
{
    if t.present_ok {
        LoopState::Running
    } else {
        LoopState::StoppedFatal
    }
}

/// The process exit code for a stopped loop: 0 for a clean stop, 1
/// for a fatal presentation failure.
pub fn exit_code(s: &LoopState) -> (c: i32)
    requires
        !(*s is Running),
    ensures
        c == 0 <==> *s is StoppedClean,
        c == 1 <==> *s is StoppedFatal,
{
    match s {
        LoopState::StoppedClean => 0,
        _ => 1,
    }
}

/// Once an exit is requested, the tick neither polls nor presents:
/// the loop stops cleanly there and then, whatever the frame source
/// or the surface would have done, and the exit is the clean one.
pub proof fn lemma_cancel_stops(t: TickInput)
    requires
        t.cancel || !t.open,
    ensures
        !tick_polls(t.open, t.cancel),
        !tick_presents(t),
        tick_next(t) == LoopState::StoppedClean,
{
}

/// A stopped loop stays stopped: later ticks change nothing, so after
/// a stop no tick polls or presents again.
pub proof fn lemma_stop_is_terminal(s: LoopState, ticks: Seq<TickInput>)
    requires
        !(s is Running),
    ensures
        run_ticks(s, ticks) == s,
    decreases ticks.len(),
{
    if ticks.len() > 0 {
        lemma_stop_is_terminal(s, ticks.drop_first());
    }
}

/// Ticks whose polls all come back `WouldBlock` never stop the loop,
/// and none of them presents — so no presentation buffer is built.
pub proof fn lemma_would_block_never_stops(ticks: Seq<TickInput>)
    requires
        forall|i: int|
            0 <= i < ticks.len() ==> (#[trigger] ticks[i]).open && !ticks[i].cancel
                && ticks[i].poll is WouldBlock,
    ensures
        run_ticks(LoopState::Running, ticks) == LoopState::Running,
        forall|i: int| 0 <= i < ticks.len() ==> !tick_presents(#[trigger] ticks[i]),
    decreases ticks.len(),
{
    if ticks.len() > 0 {
        assert(tick_next(ticks.first()) == LoopState::Running);
        lemma_would_block_never_stops(ticks.drop_first());
    }
}

} // verus!
