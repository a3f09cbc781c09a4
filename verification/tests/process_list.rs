use std::collections::{HashMap, HashSet};
use std::collections::VecDeque;

use birb_monitor::backend::sysinfo::{PidV, ProcessDiskUsage, ProcessSnapshot};
use birb_monitor::gui::backend::sysinfo::proc_list::{
    addable_columns, listed_pids, process_pid_set, remove_column, sort_pids, still_running, tree_rows,
    FreezeState, ProcessColumn, SortDirection,
};
use birb_monitor::gui::backend::sysinfo::process_tree::{tree_order, TreeRow};
use birb_monitor::gui::backend::sysinfo::memory::selected_memory_at;
use birb_monitor::gui::backend::sysinfo::selected_process::selected_pid_at;
use birb_monitor::gui::backend::sysinfo::{ProcessDetail, ProcessInfo, ProcessMetrics, ProcessSelection};
use birb_monitor::time::Interval;

fn info(pid: u32, parent: Option<u32>, name: &str, cmd: &[&str], thread: bool) -> ProcessInfo {
    let snapshot = ProcessSnapshot {
        pid: PidV(pid),
        parent: parent.map(PidV),
        name: name.to_string(),
        cmd: cmd.iter().map(|s| s.to_string()).collect(),
        exe: None,
        environ: Vec::new(),
        cwd: None,
        root: None,
        cpu_usage_bits: 0,
        memory: 0,
        virtual_memory: 0,
        accumulated_cpu_time: Interval::from_secs(0),
        disk_usage: ProcessDiskUsage { total_read_bytes: 0, read_bytes: 0, total_written_bytes: 0, written_bytes: 0 },
        status: "Sleep".to_string(),
        user_id: None,
        effective_user_id: None,
        group_id: None,
        effective_group_id: None,
        start_time: 0,
        run_time: 0,
        session_id: None,
        open_files: None,
        open_files_limit: None,
        thread_kind: if thread { Some("Userland".to_string()) } else { None },
    };
    ProcessInfo { detail: ProcessDetail::from(snapshot), metrics: VecDeque::new() }
}

fn rows(rows: &[TreeRow]) -> Vec<(u32, usize)> {
    rows.iter().map(|r| (r.pid, r.depth)).collect()
}

#[test]
fn column_titles_and_menu() {
    assert_eq!(ProcessColumn::Pid.text(), "PID");
    assert_eq!(ProcessColumn::Name.text(), "Name");
    assert_eq!(ProcessColumn::CpuUsage.text(), "CPU %");
    assert_eq!(ProcessColumn::CpuTime.text(), "CPU Time");
    assert_eq!(ProcessColumn::MemoryUsage.text(), "Memory");
    let shown = vec![ProcessColumn::Pid, ProcessColumn::Name, ProcessColumn::CpuUsage, ProcessColumn::MemoryUsage];
    assert_eq!(addable_columns(&shown), vec![ProcessColumn::CpuTime]);
    assert_eq!(addable_columns(&vec![]).len(), 5);
    let mut columns = shown.clone();
    remove_column(&mut columns, ProcessColumn::Name);
    assert_eq!(columns, vec![ProcessColumn::Pid, ProcessColumn::CpuUsage, ProcessColumn::MemoryUsage]);
    assert_eq!(SortDirection::Ascending.flipped(), SortDirection::Descending);
    assert_eq!(SortDirection::Descending.flipped(), SortDirection::Ascending);
}

#[test]
fn listing_filters_threads_and_text_and_follows_direction() {
    let mut map = HashMap::new();
    map.insert(1, info(1, None, "systemd", &["/sbin/init"], false));
    map.insert(2, info(2, Some(1), "firefox", &["/usr/bin/firefox", "--private"], false));
    map.insert(3, info(3, Some(2), "worker", &[], true));
    map.insert(4, info(4, Some(1), "bash", &["-bash"], false));
    let ranked = vec![2, 3, 1, 4];
    assert_eq!(listed_pids(&ranked, &map, "", false, SortDirection::Descending), vec![2, 1, 4]);
    assert_eq!(listed_pids(&ranked, &map, "", true, SortDirection::Descending), vec![2, 3, 1, 4]);
    assert_eq!(listed_pids(&ranked, &map, "", false, SortDirection::Ascending), vec![4, 1, 2]);
    assert_eq!(listed_pids(&ranked, &map, "bin", false, SortDirection::Descending), vec![2, 1]);
    assert_eq!(listed_pids(&ranked, &map, "private", true, SortDirection::Descending), vec![2]);
    assert_eq!(listed_pids(&ranked, &map, "nothing", true, SortDirection::Descending), Vec::<u32>::new());
    assert_eq!(still_running(&vec![9, 4, 1], &map), vec![4, 1]);
}

#[test]
fn tree_view_nests_children_under_parents() {
    // Listing order (largest first): 5, 3, 1, 4, 2.
    let ordered = vec![5, 3, 1, 4, 2];
    let parents = vec![Some(1), Some(1), None, Some(3), Some(99)];
    let laid_out = tree_order(&ordered, &parents);
    assert_eq!(rows(&laid_out), vec![(1, 0), (5, 1), (3, 1), (4, 2), (2, 0)]);
    assert_eq!(laid_out[1].index, 0);
}

#[test]
fn tree_view_keeps_each_subtree_under_its_own_root() {
    let ordered = vec![1, 2, 3, 4];
    let parents = vec![None, None, Some(1), Some(2)];
    let laid_out = tree_order(&ordered, &parents);
    assert_eq!(rows(&laid_out), vec![(1, 0), (3, 1), (2, 0), (4, 1)]);
}

#[test]
fn tree_view_puts_cycles_last_at_depth_zero() {
    let ordered = vec![7, 8, 1, 9];
    let parents = vec![Some(8), Some(7), None, Some(7)];
    let laid_out = tree_order(&ordered, &parents);
    assert_eq!(rows(&laid_out), vec![(1, 0), (7, 0), (8, 0), (9, 0)]);
    assert!(tree_order(&vec![], &vec![]).is_empty());
}

#[test]
fn tree_rows_read_parents_from_process_data() {
    let mut map = HashMap::new();
    map.insert(1, info(1, None, "systemd", &[], false));
    map.insert(2, info(2, Some(1), "firefox", &[], false));
    map.insert(4, info(4, Some(1), "bash", &[], false));
    map.insert(6, info(6, Some(4), "vim", &[], false));
    let laid_out = tree_rows(&vec![6, 2, 4, 1], &map);
    assert_eq!(rows(&laid_out), vec![(1, 0), (2, 1), (4, 1), (6, 2)]);
}

fn with_memory(pid: u32, memory: &[u64]) -> ProcessInfo {
    let mut process = info(pid, None, "worker", &[], false);
    process.metrics = memory
        .iter()
        .map(|&m| ProcessMetrics { cpu_usage_bits: 0, memory: m, virtual_memory: 0 })
        .collect();
    process
}

#[test]
fn selected_memory_adds_up_per_reading() {
    let mut map = HashMap::new();
    map.insert(1, with_memory(1, &[100, 200, 300]));
    map.insert(2, with_memory(2, &[5]));
    let pids = vec![1, 2, 99];
    assert_eq!(selected_memory_at(&pids, &map, 0), Some(105));
    assert_eq!(selected_memory_at(&pids, &map, 1), Some(200));
    assert_eq!(selected_memory_at(&pids, &map, 2), Some(300));
    assert_eq!(selected_memory_at(&pids, &map, 7), Some(0));
    assert_eq!(selected_memory_at(&vec![], &map, 0), Some(0));
    map.insert(3, with_memory(3, &[u64::MAX]));
    assert_eq!(selected_memory_at(&vec![1, 3], &map, 0), None);
    assert_eq!(selected_memory_at(&vec![3], &map, 0), Some(u64::MAX));
}

#[test]
fn selected_process_panel_counts_known_pids_in_order() {
    let mut map = HashMap::new();
    for pid in [40, 7, 300, 12] {
        map.insert(pid, info(pid, None, "p", &[], false));
    }
    let mut selection = ProcessSelection::new();
    selection.multiple_selection = true;
    for pid in [300, 7, 999, 40] {
        selection.select_process(pid);
    }
    assert_eq!(selected_pid_at(&selection, &map, 0), Some(7));
    assert_eq!(selected_pid_at(&selection, &map, 1), Some(40));
    assert_eq!(selected_pid_at(&selection, &map, 2), Some(300));
    assert_eq!(selected_pid_at(&selection, &map, 3), None);
    assert_eq!(selected_pid_at(&ProcessSelection::new(), &map, 0), None);
}

fn sample(pid: u32, name: &str, cpu: f32, secs: u64, memory: u64) -> ProcessInfo {
    let mut process = info(pid, None, name, &[], false);
    process.detail.accumulated_cpu_time = Interval::from_secs(secs);
    process.metrics.push_back(ProcessMetrics { cpu_usage_bits: cpu.to_bits(), memory, virtual_memory: 0 });
    process
}

#[test]
fn processes_sort_by_column_with_ties_by_pid() {
    let mut map = HashMap::new();
    map.insert(30, sample(30, "bash", 2.5, 10, 700));
    map.insert(4, sample(4, "Xorg", 12.0, 10, 700));
    map.insert(17, sample(17, "bash", 0.0, 99, 50));
    map.insert(9, sample(9, "äpfel", 2.5, 1, 900));
    let mut no_metrics = info(21, None, "bash", &[], false);
    no_metrics.detail.accumulated_cpu_time = Interval::from_secs(10);
    map.insert(21, no_metrics);
    let pids = vec![30, 4, 17, 9, 21];
    assert_eq!(sort_pids(&pids, &map, ProcessColumn::Pid), vec![4, 9, 17, 21, 30]);
    assert_eq!(sort_pids(&pids, &map, ProcessColumn::Name), vec![4, 17, 21, 30, 9]);
    assert_eq!(sort_pids(&pids, &map, ProcessColumn::CpuUsage), vec![4, 9, 30, 17, 21]);
    assert_eq!(sort_pids(&pids, &map, ProcessColumn::CpuTime), vec![17, 4, 21, 30, 9]);
    assert_eq!(sort_pids(&pids, &map, ProcessColumn::MemoryUsage), vec![9, 4, 30, 17, 21]);
    assert_eq!(sort_pids(&vec![30, 4, 30], &map, ProcessColumn::Pid), vec![4, 30, 30]);
    assert_eq!(sort_pids(&vec![], &map, ProcessColumn::Name), Vec::<u32>::new());
}

#[test]
fn name_order_matches_string_order() {
    let names = ["b", "a", "ab", "", "B", "é", "e", "aa", "a b"];
    let mut map = HashMap::new();
    for (i, name) in names.iter().enumerate() {
        map.insert(i as u32, info(i as u32, None, name, &[], false));
    }
    let pids: Vec<u32> = (0..names.len() as u32).collect();
    let mut expected = pids.clone();
    expected.sort_by(|a, b| names[*a as usize].cmp(names[*b as usize]).then(a.cmp(b)));
    assert_eq!(sort_pids(&pids, &map, ProcessColumn::Name), expected);
}

#[test]
fn pid_set_lists_every_held_process() {
    let mut map = HashMap::new();
    map.insert(3, info(3, None, "a", &[], false));
    map.insert(8, info(8, None, "b", &[], false));
    assert_eq!(process_pid_set(&map), HashSet::from([3, 8]));
    assert!(process_pid_set(&HashMap::new()).is_empty());
}

#[test]
fn selection_changes_only_while_the_list_is_live() {
    let existing = HashSet::from([1, 2]);
    let mut selection = ProcessSelection::new();
    selection.select_process(5);
    FreezeState::Pin(vec![1]).prune_selection(&mut selection, &existing);
    assert_eq!(selection.selected_processes, HashSet::from([5]));
    FreezeState::Pin(vec![1]).click(&mut selection, 1);
    FreezeState::Pause(HashMap::new()).click(&mut selection, 2);
    assert_eq!(selection.selected_processes, HashSet::from([5]));
    FreezeState::Live.prune_selection(&mut selection, &existing);
    assert!(selection.selected_processes.is_empty());
    FreezeState::Live.click(&mut selection, 2);
    assert_eq!(selection.selected_processes, HashSet::from([2]));
}

#[test]
fn a_paused_list_marks_every_held_process() {
    let mut selection = ProcessSelection::new();
    selection.select_process(1);
    let mut held = HashMap::new();
    held.insert(4, info(4, None, "a", &[], false));
    held.insert(6, info(6, None, "b", &[], false));
    assert_eq!(FreezeState::Pause(held).marked(&selection), HashSet::from([4, 6]));
    assert_eq!(FreezeState::Live.marked(&selection), HashSet::from([1]));
    assert_eq!(FreezeState::Pin(vec![4]).marked(&selection), HashSet::from([1]));
}
