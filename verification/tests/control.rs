use file_management::control::{
    ControlError, ControlLoop, ControlState, LoopAction, LoopEvent, ServiceState,
    DEFAULT_POLL_INTERVAL_MS,
};

fn settled(path: &str) -> LoopEvent {
    LoopEvent::Settled { path: path.to_string() }
}

fn running() -> ControlLoop {
    let (mut control, _) = ControlLoop::start(DEFAULT_POLL_INTERVAL_MS);
    control.step(LoopEvent::WatchEstablished);
    control
}

fn relocating() -> ControlLoop {
    let mut control = running();
    control.step(settled("/watch/a.zip"));
    control
}

fn every_event() -> Vec<LoopEvent> {
    vec![
        LoopEvent::WatchEstablished,
        LoopEvent::WatchFailed,
        settled("/watch/late.zip"),
        LoopEvent::PollElapsed,
        LoopEvent::RelocationFinished,
        LoopEvent::Drained,
        LoopEvent::ShutdownRequested,
        LoopEvent::ShutdownSignalLost,
    ]
}

#[test]
fn default_poll_interval_is_one_second() {
    assert_eq!(DEFAULT_POLL_INTERVAL_MS, 1000);
}

#[test]
fn loop_starts_by_establishing_the_watch() {
    let (control, action) = ControlLoop::start(250);
    assert_eq!(action, LoopAction::EstablishWatch);
    assert_eq!(control.state(), ControlState::Starting);
    assert_eq!(control.service_state(), None);
    assert_eq!(control.error(), None);
    assert_eq!(control.poll_interval_ms(), 250);
}

#[test]
fn established_watch_starts_the_waiting() {
    let (mut control, _) = ControlLoop::start(1000);
    assert_eq!(control.step(LoopEvent::WatchEstablished), LoopAction::Await { timeout_ms: 1000 });
    assert_eq!(control.state(), ControlState::Running);
    assert_eq!(control.service_state(), Some(ServiceState::Running));
}

#[test]
fn failed_watch_is_fatal() {
    let (mut control, _) = ControlLoop::start(1000);
    assert_eq!(control.step(LoopEvent::WatchFailed), LoopAction::Halt);
    assert_eq!(control.state(), ControlState::Stopped);
    assert_eq!(control.service_state(), Some(ServiceState::Stopped));
    assert_eq!(control.error(), Some(ControlError::WatchInitError));
}

#[test]
fn nothing_is_relocated_before_the_watch_stands() {
    let (mut control, _) = ControlLoop::start(1000);
    assert_eq!(control.step(settled("/watch/a.zip")), LoopAction::Continue);
    assert_eq!(control.step(LoopEvent::PollElapsed), LoopAction::Continue);
    assert_eq!(control.state(), ControlState::Starting);
}

#[test]
fn settled_file_is_relocated() {
    let mut control = running();
    assert_eq!(
        control.step(settled("/watch/pic.png")),
        LoopAction::Relocate { path: "/watch/pic.png".to_string() }
    );
    assert_eq!(control.state(), ControlState::Running);
    assert_eq!(control.step(LoopEvent::RelocationFinished), LoopAction::Await { timeout_ms: 1000 });
    assert_eq!(control.state(), ControlState::Running);
}

#[test]
fn empty_wait_is_followed_by_another() {
    let (mut control, _) = ControlLoop::start(40);
    control.step(LoopEvent::WatchEstablished);
    for _ in 0..5 {
        assert_eq!(control.step(LoopEvent::PollElapsed), LoopAction::Await { timeout_ms: 40 });
        assert_eq!(control.state(), ControlState::Running);
    }
}

#[test]
fn files_are_relocated_one_at_a_time_in_order() {
    let mut control = running();
    let mut asked = Vec::new();
    for path in ["/watch/1.zip", "/watch/2.zip", "/watch/3.zip"] {
        match control.step(settled(path)) {
            LoopAction::Relocate { path } => asked.push(path),
            other => panic!("no relocation: {:?}", other),
        }
        assert_eq!(control.step(settled("/watch/early.zip")), LoopAction::Continue);
        control.step(LoopEvent::RelocationFinished);
    }
    assert_eq!(asked, vec!["/watch/1.zip", "/watch/2.zip", "/watch/3.zip"]);
}

#[test]
fn later_watch_trouble_does_not_stop_the_loop() {
    let mut control = running();
    assert_eq!(control.step(LoopEvent::WatchFailed), LoopAction::Continue);
    assert_eq!(control.state(), ControlState::Running);
    assert_eq!(control.error(), None);
}

#[test]
fn shutdown_while_waiting_stops_the_loop() {
    let mut control = running();
    assert_eq!(control.step(LoopEvent::ShutdownRequested), LoopAction::Drain);
    assert_eq!(control.state(), ControlState::Stopping);
    assert_eq!(control.service_state(), Some(ServiceState::StopPending));
    assert_eq!(control.step(LoopEvent::Drained), LoopAction::Halt);
    assert_eq!(control.state(), ControlState::Stopped);
    assert_eq!(control.service_state(), Some(ServiceState::Stopped));
    assert_eq!(control.error(), None);
}

#[test]
fn shutdown_lets_the_relocation_in_flight_finish() {
    let mut control = relocating();
    assert_eq!(control.step(LoopEvent::ShutdownRequested), LoopAction::Drain);
    assert_eq!(control.state(), ControlState::Stopping);
    assert_eq!(control.step(settled("/watch/late.zip")), LoopAction::Continue);
    assert_eq!(control.state(), ControlState::Stopping);
    assert_eq!(control.step(LoopEvent::RelocationFinished), LoopAction::Halt);
    assert_eq!(control.state(), ControlState::Stopped);
}

#[test]
fn shutdown_before_the_watch_stands_stops_the_loop() {
    let (mut control, _) = ControlLoop::start(1000);
    assert_eq!(control.step(LoopEvent::ShutdownRequested), LoopAction::Drain);
    assert_eq!(control.step(LoopEvent::WatchEstablished), LoopAction::Continue);
    assert_eq!(control.step(LoopEvent::Drained), LoopAction::Halt);
    assert_eq!(control.state(), ControlState::Stopped);
    assert_eq!(control.error(), None);
}

#[test]
fn no_relocation_is_asked_for_after_shutdown() {
    for mut control in [ControlLoop::start(1000).0, running(), relocating()] {
        control.step(LoopEvent::ShutdownRequested);
        for _ in 0..3 {
            for event in every_event() {
                let action = control.step(event);
                assert!(!matches!(action, LoopAction::Relocate { .. }));
                assert!(!matches!(action, LoopAction::Await { .. }));
                assert!(matches!(control.state(), ControlState::Stopping | ControlState::Stopped));
            }
        }
        assert_eq!(control.state(), ControlState::Stopped);
    }
}

#[test]
fn shutdown_may_be_asked_for_many_times() {
    for start in [ControlLoop::start(1000).0, running(), relocating()] {
        let mut once = start.clone();
        once.step(LoopEvent::ShutdownRequested);
        let mut often = start.clone();
        for _ in 0..5 {
            often.step(LoopEvent::ShutdownRequested);
        }
        assert_eq!(once, often);
        assert_eq!(once.state(), ControlState::Stopping);
    }
}

#[test]
fn lost_shutdown_signal_stops_the_loop_and_is_recorded() {
    let mut control = running();
    assert_eq!(control.step(LoopEvent::ShutdownSignalLost), LoopAction::Drain);
    assert_eq!(control.state(), ControlState::Stopping);
    assert_eq!(control.error(), Some(ControlError::ShutdownSignalError));
    assert_eq!(control.step(LoopEvent::Drained), LoopAction::Halt);
    assert_eq!(control.state(), ControlState::Stopped);
    assert_eq!(control.error(), Some(ControlError::ShutdownSignalError));
}

#[test]
fn stopped_loop_stays_stopped() {
    let mut control = running();
    control.step(LoopEvent::ShutdownRequested);
    control.step(LoopEvent::Drained);
    let stopped = control.clone();
    for event in every_event() {
        assert_eq!(control.step(event), LoopAction::Halt);
        assert_eq!(control, stopped);
    }
}

#[test]
fn first_error_stays_on_record() {
    let (mut control, _) = ControlLoop::start(1000);
    control.step(LoopEvent::WatchFailed);
    control.step(LoopEvent::ShutdownSignalLost);
    assert_eq!(control.error(), Some(ControlError::WatchInitError));
}

#[test]
fn state_never_goes_back() {
    fn rank(state: ControlState) -> u8 {
        match state {
            ControlState::Starting => 0,
            ControlState::Running => 1,
            ControlState::Stopping => 2,
            ControlState::Stopped => 3,
        }
    }
    let events = every_event();
    for first in 0..events.len() {
        for second in 0..events.len() {
            for third in 0..events.len() {
                let (mut control, _) = ControlLoop::start(1000);
                let mut last = rank(control.state());
                for index in [first, second, third, 0, 2, 4] {
                    control.step(events[index].clone());
                    let now = rank(control.state());
                    assert!(last <= now);
                    last = now;
                }
            }
        }
    }
}
