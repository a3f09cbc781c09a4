use birb_monitor::backend::docker::{DockerCommand, DockerEndpoint};
use birb_monitor::backend::sysinfo::SysinfoCommand;
use birb_monitor::backend::{interval_reply, route, Route};
use birb_monitor::message::{Command, Message, SystemId};
use birb_monitor::time::{Snapshot, Interval};
use birb_monitor::utils::{LoopAction, LoopInput, TickSchedule, TimedTaskEvent};

const SECOND: u128 = 1_000_000_000;

#[test]
fn routes_intervals_and_rejects_invalid_values() {
    let zero = route(Command::SetInterval { target: SystemId::Components, interval: Interval::from_millis(0) });
    assert!(matches!(zero, Route::Reject(_)));
    let accepted = route(Command::SetInterval {
        target: SystemId::Components,
        interval: Interval::from_millis(50),
    });
    assert!(matches!(
        accepted,
        Route::SetInterval { target: SystemId::Components, interval } if interval == Interval::from_millis(50)
    ));
    let ack = interval_reply(SystemId::Components, Interval::from_millis(50), true);
    assert!(matches!(
        ack,
        Message::IntervalChanged { target: SystemId::Components, interval } if interval == Interval::from_millis(50)
    ));
}

#[test]
fn interval_bounds_are_inclusive() {
    let reject_message = |r: Route| match r {
        Route::Reject(m) => Some(m),
        _ => None,
    };
    assert_eq!(
        reject_message(route(Command::SetInterval { target: SystemId::System, interval: Interval::from_millis(49) })),
        Some("Read interval must be between 50 ms and 24 hours".to_string())
    );
    assert!(matches!(
        route(Command::SetInterval { target: SystemId::System, interval: Interval::from_secs(86_400) }),
        Route::SetInterval { target: SystemId::System, .. }
    ));
    assert!(matches!(
        route(Command::SetInterval { target: SystemId::Docker, interval: Interval::new(86_400, 1) }),
        Route::Reject(_)
    ));
    assert!(matches!(
        route(Command::SetInterval { target: SystemId::Docker, interval: Interval::new(0, 49_999_999) }),
        Route::Reject(_)
    ));
}

#[test]
fn refresh_commands_go_to_their_collector() {
    assert!(matches!(route(Command::Refresh(SystemId::System)), Route::System(SysinfoCommand::Refresh)));
    assert!(matches!(route(Command::Refresh(SystemId::Components)), Route::Components(SysinfoCommand::Refresh)));
    assert!(matches!(route(Command::Refresh(SystemId::Docker)), Route::Docker(DockerCommand::Refresh)));
    assert!(matches!(
        route(Command::Docker(DockerCommand::SetSocketPath("unix:///tmp/d.sock".to_string()))),
        Route::Docker(DockerCommand::SetSocketPath(p)) if p == "unix:///tmp/d.sock"
    ));
}

#[test]
fn stopped_collector_reply_is_an_error() {
    assert!(matches!(
        interval_reply(SystemId::Docker, Interval::from_secs(2), false),
        Message::CommandError(m) if m == "Collector stopped"
    ));
}

#[test]
fn interval_changes_restart_deadline_without_extra_ticks() {
    let mut schedule = TickSchedule::start(0, Interval::from_secs(60));
    assert_eq!(schedule.deadline(), 60 * SECOND);
    let action = schedule.on_input(LoopInput::<()>::IntervalChanged(Some(Interval::from_secs(1))), 5 * SECOND);
    assert_eq!(action, LoopAction::Wait);
    assert_eq!(schedule.deadline(), 6 * SECOND);
    let action = schedule.on_input(LoopInput::<()>::TimerFired, 6 * SECOND);
    assert_eq!(action, LoopAction::Handle(TimedTaskEvent::Tick));
    schedule.after_tick(6 * SECOND, schedule.interval());
    assert_eq!(schedule.deadline(), 7 * SECOND);
    let action = schedule.on_input(LoopInput::<()>::IntervalChanged(Some(Interval::from_secs(60))), 6 * SECOND);
    assert_eq!(action, LoopAction::Wait);
    assert_eq!(schedule.deadline(), 66 * SECOND);
    assert!(schedule.deadline() > 8 * SECOND);
}

#[test]
fn commands_do_not_move_the_deadline() {
    let mut schedule = TickSchedule::start(10, Interval::from_secs(1));
    let action = schedule.on_input(LoopInput::Received(Some(7u32)), 500);
    assert_eq!(action, LoopAction::Handle(TimedTaskEvent::Message(7u32)));
    assert_eq!(schedule.deadline(), 10 + SECOND);
    assert_eq!(schedule.on_input(LoopInput::<u32>::Received(None), 600), LoopAction::Exit);
    assert_eq!(schedule.on_input(LoopInput::<u32>::Stop, 600), LoopAction::Exit);
    assert_eq!(schedule.on_input(LoopInput::<u32>::IntervalChanged(None), 600), LoopAction::Exit);
    assert_eq!(schedule.deadline(), 10 + SECOND);
}

#[test]
fn next_tick_follows_handler_completion() {
    let mut schedule = TickSchedule::start(0, Interval::from_secs(1));
    assert_eq!(schedule.on_input(LoopInput::<()>::TimerFired, SECOND), LoopAction::Handle(TimedTaskEvent::Tick));
    // The handler took ten seconds; the next tick is a full interval after it finished.
    schedule.after_tick(11 * SECOND, schedule.interval());
    assert_eq!(schedule.deadline(), 12 * SECOND);
}

#[test]
fn closed_output_does_not_create_client() {
    let mut endpoint: DockerEndpoint<u8> = DockerEndpoint::new("unused".to_string());
    assert!(!endpoint.on_event(TimedTaskEvent::Tick, true));
    assert!(endpoint.client.is_none());
    endpoint.client = Some(1);
    assert!(endpoint.on_event(TimedTaskEvent::Message(DockerCommand::Refresh), false));
    assert_eq!(endpoint.client, Some(1));
    assert!(endpoint.on_event(
        TimedTaskEvent::Message(DockerCommand::SetSocketPath("unix:///tmp/birb.sock".to_string())),
        false
    ));
    assert_eq!(endpoint.socket_path, "unix:///tmp/birb.sock");
    assert!(endpoint.client.is_none());
}

#[test]
fn snapshot_keeps_its_data_and_records_when_it_was_taken() {
    let before = std::time::Instant::now();
    let snapshot = Snapshot::new(vec![1u32, 2, 3]);
    assert_eq!(snapshot.data, vec![1, 2, 3]);
    assert!(snapshot.time >= before);
    assert!(snapshot.time <= std::time::Instant::now());
}
