use focus::capture::{after_present, exit_code, gate, on_poll};
use focus::{Gate, LoopState, PollEvent, PollStep, TickInput};

#[test]
fn open_and_no_cancel_proceeds() {
    assert_eq!(gate(true, false), Gate::Proceed);
}

#[test]
fn cancel_stops_before_polling() {
    assert_eq!(gate(true, true), Gate::Stop);
}

#[test]
fn closed_surface_stops_before_polling() {
    assert_eq!(gate(false, false), Gate::Stop);
    assert_eq!(gate(false, true), Gate::Stop);
}

#[test]
fn frame_is_converted() {
    assert_eq!(on_poll(PollEvent::Frame), PollStep::Convert);
}

#[test]
fn would_block_yields_without_buffer() {
    assert_eq!(on_poll(PollEvent::WouldBlock), PollStep::Yield);
}

#[test]
fn device_lost_stops_cleanly() {
    assert_eq!(on_poll(PollEvent::DeviceLost), PollStep::StopClean);
}

#[test]
fn accepted_present_keeps_running() {
    let t = TickInput { open: true, cancel: false, poll: PollEvent::Frame, present_ok: true };
    assert_eq!(after_present(t), LoopState::Running);
}

#[test]
fn rejected_present_is_fatal() {
    let t = TickInput { open: true, cancel: false, poll: PollEvent::Frame, present_ok: false };
    assert_eq!(after_present(t), LoopState::StoppedFatal);
}

#[test]
fn exit_codes_tell_the_two_stops_apart() {
    assert_eq!(exit_code(&LoopState::StoppedClean), 0);
    assert_eq!(exit_code(&LoopState::StoppedFatal), 1);
}
