use std::collections::HashSet;
use std::time::{Duration, SystemTime};

use birb_monitor::backend::docker::{DockerMessage, DockerSnapshot, SimpleContainer, SimpleImage};
use birb_monitor::backend::sysinfo::{
    ComponentStats, ComponentsSnapshot, CpuStats, DiskIoStats, GeneralStats, NetworkStats, PidV,
    ProcessDiskUsage, ProcessSnapshot, SnapshotData, SysinfoMessage,
};
use birb_monitor::gui::app::state::FrontendState;
use birb_monitor::gui::backend::docker::DockerSharedState;
use birb_monitor::gui::backend::sysinfo::{
    default_limit_processes_to_selection, default_temperature_interval, ProcessSelection,
    SysinfoConfig, SysinfoSharedState, FULL_RANGE_READINGS,
};
use birb_monitor::gui::backend::{ConfigSync, ConfigUpdate, ConnectionStatus, PollOutcome, MESSAGES_PER_BATCH};
use birb_monitor::message::{Message, SystemId};
use birb_monitor::time::Interval;

fn process(pid: u32, start_time: u64, memory: u64) -> ProcessSnapshot {
    ProcessSnapshot {
        pid: PidV(pid),
        parent: None,
        name: format!("proc{pid}"),
        cmd: vec![format!("/bin/proc{pid}")],
        exe: None,
        environ: Vec::new(),
        cwd: None,
        root: None,
        cpu_usage_bits: 0,
        memory,
        virtual_memory: memory * 2,
        accumulated_cpu_time: Interval::from_millis(10),
        disk_usage: ProcessDiskUsage { total_read_bytes: 0, read_bytes: 0, total_written_bytes: 0, written_bytes: 0 },
        status: "Run".to_string(),
        user_id: None,
        effective_user_id: None,
        group_id: None,
        effective_group_id: None,
        start_time,
        run_time: 1,
        session_id: None,
        open_files: None,
        open_files_limit: None,
        thread_kind: None,
    }
}

fn reading(processes: Vec<ProcessSnapshot>) -> SysinfoMessage {
    SysinfoMessage::Snapshot(SnapshotData {
        captured_at: SystemTime::UNIX_EPOCH + Duration::from_secs(100),
        general_stats: GeneralStats { total_memory: 8, used_memory: 4, total_swap: 0, used_swap: 0 },
        cpu_stats: CpuStats { global_usage_bits: 0, per_cpu_usage_bits: vec![0, 0] },
        network_stats: NetworkStats::take_default(),
        disk_io_stats: DiskIoStats::take_default(),
        pids: processes.iter().map(|p| p.pid).collect(),
        processes,
    })
}

fn history_len(state: &SysinfoSharedState, pid: u32) -> Option<usize> {
    state.process_info.get(&pid).map(|info| info.metrics.len())
}

#[test]
fn default_configuration() {
    let config = SysinfoConfig::default();
    assert_eq!(config.update_interval, Interval::from_secs(1));
    assert_eq!(config.temperature_interval, default_temperature_interval());
    assert_eq!(default_temperature_interval(), Interval::from_secs(5));
    assert!(default_limit_processes_to_selection());
    assert_eq!(config.max_readings, 60);
    assert_eq!(config.max_history_readings(), 60);
    let full = SysinfoConfig { max_readings: 0, ..config };
    assert_eq!(full.max_history_readings(), FULL_RANGE_READINGS);
    assert_eq!(FULL_RANGE_READINGS, 600);
}

#[test]
fn selected_processes_keep_history_and_others_only_the_latest() {
    let mut state = SysinfoSharedState::new();
    state.process_selection.select_process(1);
    for _ in 0..3 {
        state.receive(reading(vec![process(1, 7, 100), process(2, 7, 200)]));
    }
    assert_eq!(state.data.len(), 3);
    assert_eq!(history_len(&state, 1), Some(3));
    assert_eq!(history_len(&state, 2), Some(1));
    assert_eq!(state.process_info[&2].metrics[0].memory, 200);
}

#[test]
fn histories_are_trimmed_to_the_configured_limit() {
    let mut state = SysinfoSharedState::new();
    state.config.limit_processes_to_selection = false;
    state.config.max_readings = 2;
    for _ in 0..5 {
        state.receive(reading(vec![process(1, 7, 100)]));
    }
    assert_eq!(state.data.len(), 2);
    assert_eq!(history_len(&state, 1), Some(2));
    for _ in 0..3 {
        state.receive(SysinfoMessage::Components(ComponentsSnapshot {
            captured_at: SystemTime::UNIX_EPOCH,
            component_stats: ComponentStats::take_default(),
        }));
    }
    assert_eq!(state.temperatures.len(), 2);
}

#[test]
fn new_history_is_aligned_with_earlier_readings() {
    let mut state = SysinfoSharedState::new();
    state.config.limit_processes_to_selection = false;
    state.receive(reading(vec![process(1, 7, 100)]));
    state.receive(reading(vec![process(1, 7, 100)]));
    state.receive(reading(vec![process(1, 7, 100), process(3, 9, 300)]));
    assert_eq!(history_len(&state, 3), Some(3));
    let metrics = &state.process_info[&3].metrics;
    assert_eq!(metrics[0].memory, 0);
    assert_eq!(metrics[1].memory, 0);
    assert_eq!(metrics[2].memory, 300);
}

#[test]
fn vanished_and_reused_pids_are_forgotten() {
    let mut state = SysinfoSharedState::new();
    state.config.limit_processes_to_selection = false;
    state.process_selection.multiple_selection = true;
    state.process_selection.select_process(1);
    state.process_selection.select_process(2);
    state.receive(reading(vec![process(1, 7, 100), process(2, 7, 200)]));
    state.receive(reading(vec![process(1, 7, 100), process(2, 7, 200)]));
    assert_eq!(history_len(&state, 2), Some(2));
    // Process 2 exits; process 1's PID is reused by a process started later.
    state.receive(reading(vec![process(1, 8, 50)]));
    assert!(!state.process_info.contains_key(&2));
    assert!(!state.process_selection.selected_processes.contains(&2));
    assert!(state.process_selection.selected_processes.contains(&1));
    assert_eq!(state.process_info[&1].detail.start_time, 8);
    let metrics = &state.process_info[&1].metrics;
    assert_eq!(metrics.len(), 3);
    assert_eq!(metrics[0].memory, 0);
    assert_eq!(metrics[2].memory, 50);
}

#[test]
fn selection_follows_single_and_multiple_mode() {
    let mut selection = ProcessSelection::new();
    selection.select_process(5);
    selection.select_process(6);
    assert_eq!(selection.selected_processes, HashSet::from([6]));
    selection.multiple_selection = true;
    selection.select_process(7);
    selection.select_process(6);
    assert_eq!(selection.selected_processes, HashSet::from([7]));
    selection.select_process(8);
    selection.retain_existing_pids(&HashSet::from([8, 9]));
    assert_eq!(selection.selected_processes, HashSet::from([8]));
    selection.select_process(9);
    selection.retain_single_selection();
    assert_eq!(selection.selected_processes.len(), 1);
    assert!(selection.selected_processes.is_subset(&HashSet::from([8, 9])));
    selection.clear();
    assert!(selection.selected_processes.is_empty());
    assert!(selection.multiple_selection);
}

#[test]
fn connection_status_records_intervals_and_errors() {
    let mut frontend = FrontendState::new();
    let mut status = ConnectionStatus::new();
    status.apply(&mut frontend, Message::IntervalChanged { target: SystemId::System, interval: Interval::from_secs(2) });
    assert_eq!(status.intervals.get(SystemId::System), Some(Interval::from_secs(2)));
    assert_eq!(status.intervals.get(SystemId::Docker), None);
    assert_eq!(frontend.sysinfo.state.applied_update_interval, Some(Interval::from_secs(2)));
    status.apply(&mut frontend, Message::IntervalChanged { target: SystemId::Components, interval: Interval::from_secs(7) });
    assert_eq!(frontend.sysinfo.state.applied_temperature_interval, Some(Interval::from_secs(7)));
    status.apply(&mut frontend, Message::CommandError("nope".to_string()));
    assert_eq!(status.error, Some("nope".to_string()));
    status.apply(&mut frontend, reading_message());
    assert_eq!(frontend.sysinfo.state.data.len(), 1);
    assert!(!status.disconnected);
    status.mark_disconnected();
    assert!(status.disconnected);
    assert_eq!(status.error, Some("nope".to_string()));
}

fn reading_message() -> Message {
    Message::Sysinfo(reading(vec![process(1, 1, 1)]))
}

fn docker_snapshot(socket: &str, containers: Result<Vec<SimpleContainer>, String>, images: Result<Vec<SimpleImage>, String>) -> DockerMessage {
    DockerMessage::Snapshot(DockerSnapshot {
        captured_at: SystemTime::UNIX_EPOCH + Duration::from_secs(42),
        socket_path: socket.to_string(),
        containers,
        images,
    })
}

#[test]
fn docker_keeps_earlier_lists_after_failed_reads() {
    let mut state = DockerSharedState::new();
    assert_eq!(state.config.socket_path, "unix:///var/run/docker.sock");
    assert_eq!(state.config.update_interval_secs, 2);
    let container = SimpleContainer {
        id: "container-id".to_string(),
        name: "example".to_string(),
        image: "example:latest".to_string(),
        status: "Up".to_string(),
        state: "running".to_string(),
        created: 42,
        ports: "80/tcp".to_string(),
    };
    state.receive(docker_snapshot("unix:///var/run/docker.sock", Ok(vec![container]), Ok(vec![])));
    assert!(state.state.connected);
    assert_eq!(state.state.containers.len(), 1);
    state.receive(docker_snapshot("unix:///var/run/docker.sock", Err("down".to_string()), Err("image request failed".to_string())));
    assert!(!state.state.connected);
    assert_eq!(state.state.containers.len(), 1);
    assert_eq!(state.state.containers[0].name, "example");
    assert_eq!(state.state.images_error, Some("image request failed".to_string()));
    assert_eq!(state.state.last_updated, Some(SystemTime::UNIX_EPOCH + Duration::from_secs(42)));
    // A cycle of another endpoint is ignored.
    state.receive(docker_snapshot("unix:///elsewhere.sock", Ok(vec![]), Ok(vec![])));
    assert_eq!(state.state.containers.len(), 1);
    assert!(!state.state.connected);
}

#[test]
fn configuration_sync_settles_after_confirmation() {
    let mut frontend = FrontendState::new();
    let mut sync = ConfigSync::new();
    assert!(sync.plan(&frontend, true).is_empty());
    let updates = sync.plan(&frontend, false);
    assert_eq!(updates.len(), 5);
    assert!(matches!(&updates[0], ConfigUpdate::Selection { selected_only: true, .. }));
    assert!(matches!(&updates[1], ConfigUpdate::Socket(p) if p == "unix:///var/run/docker.sock"));
    assert!(matches!(&updates[2], ConfigUpdate::Interval { target: SystemId::System, interval } if *interval == Interval::from_secs(1)));
    assert!(matches!(&updates[3], ConfigUpdate::Interval { target: SystemId::Components, interval } if *interval == Interval::from_secs(5)));
    assert!(matches!(&updates[4], ConfigUpdate::Interval { target: SystemId::Docker, interval } if *interval == Interval::from_secs(2)));
    for update in updates {
        sync.confirm(update);
    }
    assert!(sync.plan(&frontend, false).is_empty());
    frontend.docker.state.config.update_interval_secs = 9;
    let updates = sync.plan(&frontend, false);
    assert_eq!(updates.len(), 1);
    assert!(matches!(&updates[0], ConfigUpdate::Interval { target: SystemId::Docker, interval } if *interval == Interval::from_secs(9)));
}

#[test]
fn frontend_configuration_round_trips() {
    let mut frontend = FrontendState::new();
    let mut config = frontend.config();
    config.sysinfo.max_readings = 5;
    config.docker.socket_path = "unix:///tmp/d.sock".to_string();
    frontend.apply_config(&config);
    let again = frontend.config();
    assert_eq!(again.sysinfo.max_readings, 5);
    assert_eq!(again.docker.socket_path, "unix:///tmp/d.sock");
    assert_eq!(again.docker.update_interval_secs, 2);
}

fn snapshot(pids: Vec<u32>, processes: Vec<ProcessSnapshot>) -> SnapshotData {
    match reading(processes) {
        SysinfoMessage::Snapshot(mut data) => {
            data.pids = pids.into_iter().map(PidV).collect();
            data
        }
        _ => unreachable!(),
    }
}

#[test]
fn ordinary_readings_can_be_applied() {
    let mut state = SysinfoSharedState::new();
    state.config.limit_processes_to_selection = false;
    assert!(state.can_apply_reading(&snapshot(vec![1, 2], vec![process(1, 7, 100), process(2, 7, 200)])));
    state.config.max_readings = 2;
    for _ in 0..4 {
        let next = snapshot(vec![1], vec![process(1, 7, 100)]);
        assert!(state.can_apply_reading(&next));
        state.receive(SysinfoMessage::Snapshot(next));
    }
    assert_eq!(history_len(&state, 1), Some(2));
}

#[test]
fn a_history_shorter_than_the_trim_is_refused() {
    let mut state = SysinfoSharedState::new();
    state.config.limit_processes_to_selection = false;
    state.config.max_readings = 10;
    for _ in 0..2 {
        state.receive(SysinfoMessage::Snapshot(snapshot(vec![1], vec![process(1, 7, 100)])));
    }
    // Process 1 stays listed but its details are missing from three readings.
    for _ in 0..3 {
        state.receive(SysinfoMessage::Snapshot(snapshot(vec![1], vec![])));
    }
    assert_eq!(state.data.len(), 5);
    assert_eq!(history_len(&state, 1), Some(2));
    state.config.max_readings = 2;
    assert!(!state.can_apply_reading(&snapshot(vec![1], vec![process(1, 7, 100)])));
    // Once process 1 is gone its short history is dropped, not trimmed.
    assert!(state.can_apply_reading(&snapshot(vec![4], vec![process(4, 7, 100)])));
}

#[test]
fn a_batch_of_messages_is_bounded_and_a_closed_queue_is_a_lost_connection() {
    let mut status = ConnectionStatus::new();
    assert_eq!(status.after_poll(PollOutcome::Received, 0), Some(1));
    assert_eq!(status.after_poll(PollOutcome::Received, MESSAGES_PER_BATCH - 2), Some(MESSAGES_PER_BATCH - 1));
    assert_eq!(status.after_poll(PollOutcome::Received, MESSAGES_PER_BATCH - 1), None);
    assert_eq!(status.after_poll(PollOutcome::Empty, 3), None);
    assert!(!status.disconnected);
    assert_eq!(status.after_poll(PollOutcome::Closed, 3), None);
    assert!(status.disconnected);
}
