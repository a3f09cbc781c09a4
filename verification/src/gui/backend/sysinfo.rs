//! Frontend state for system readings: configuration, process selection and
//! the bounded history of samples and per-process metrics.
use vstd::prelude::*;
use std::collections::{HashMap, HashSet, VecDeque};
use vstd::std_specs::iter::IteratorSpec;

use crate::backend::sysinfo::{
    distinct_processes, lists_pid, lists_table, reading_is_complete, ComponentsSnapshot, ProcessDiskUsage, ProcessSnapshot,
    SnapshotData, SysinfoMessage,
};
use crate::time::Interval;

pub mod selected_process;
pub mod memory;
pub mod proc_list;
pub mod process_tree;
pub mod settings;
pub mod temperature_chart;

verus! {

broadcast use vstd::std_specs::hash::group_hash_axioms;

/// Frontend preferences for the system collectors and plots.
#[derive(Debug, Clone, Copy, PartialEq, Eq, Structural)]
pub struct SysinfoConfig {
    pub update_interval: Interval,
    pub temperature_interval: Interval,
    /// Number of historical readings to keep and display on plots.
    /// 0 = keep up to 600 (full range).
    pub max_readings: usize,
    /// Collect details and retain history only for selected PIDs.
    pub limit_processes_to_selection: bool,
}

/// Readings kept when `max_readings` is 0.
pub const FULL_RANGE_READINGS: usize = 600;

/// Hard cap on retained readings, whatever the configuration says.
pub const MAX_RETAINED_READINGS: usize = 10000;

pub open spec fn spec_max_history_readings(max_readings: usize) -> usize {
    if max_readings == 0 {
        FULL_RANGE_READINGS
    } else {
        max_readings
    }
}

impl SysinfoConfig {
    /// Number of historical snapshots to keep in memory.
    pub fn max_history_readings(&self) -> (r: usize)
        ensures
            r == spec_max_history_readings(self.max_readings),
            r >= 1,
    {
        if self.max_readings == 0 {
            FULL_RANGE_READINGS
        } else {
            self.max_readings
        }
    }
}

pub fn default_temperature_interval() -> (r: Interval)
    ensures
        r == Interval::spec_from_secs(5),
        r.total_nanos() == 5_000_000_000,
{
    Interval::from_secs(5)
}

pub fn default_limit_processes_to_selection() -> (r: bool)
    ensures
        r,
{
    true
}

impl SysinfoConfig {
    /// The defaults: 1 s updates, 5 s temperature reads, 60 readings, details only
    /// for selected processes.
    pub open spec fn spec_default() -> SysinfoConfig {
        SysinfoConfig {
            update_interval: Interval::spec_from_secs(1),
            temperature_interval: Interval::spec_from_secs(5),
            max_readings: 60,
            limit_processes_to_selection: true,
        }
    }
}

impl Default for SysinfoConfig {
    fn default() -> (r: Self)
        ensures
            r == SysinfoConfig::spec_default(),
            r.update_interval.total_nanos() == 1_000_000_000,
            r.temperature_interval.total_nanos() == 5_000_000_000,
    {
        SysinfoConfig {
            update_interval: Interval::from_secs(1),
            temperature_interval: default_temperature_interval(),
            max_readings: 60,
            limit_processes_to_selection: default_limit_processes_to_selection(),
        }
    }
}

/// The selection after a click on `pid`: with multiple selection the click
/// toggles `pid`, otherwise `pid` becomes the only selected process.
pub open spec fn after_click(selected: Set<u32>, multiple: bool, pid: u32) -> Set<u32> {
    if multiple {
        if selected.contains(pid) {
            selected.remove(pid)
        } else {
            selected.insert(pid)
        }
    } else {
        set![pid]
    }
}

/// Clicking the same process twice with multiple selection leaves the
/// selection as it was; without it, the second click changes nothing more.
pub proof fn lemma_click_twice(selected: Set<u32>, multiple: bool, pid: u32)
    ensures
        multiple ==> after_click(after_click(selected, multiple, pid), multiple, pid) == selected,
        !multiple ==> after_click(after_click(selected, multiple, pid), multiple, pid) == after_click(
            selected,
            multiple,
            pid,
        ),
{
    if multiple {
        if selected.contains(pid) {
            assert(selected.remove(pid).insert(pid) =~= selected);
        } else {
            assert(selected.insert(pid).remove(pid) =~= selected);
        }
    }
}

/// The set of processes the user has selected in the process list.
#[derive(Debug)]
pub struct ProcessSelection {
    pub selected_processes: HashSet<u32>,
    pub multiple_selection: bool,
}

impl ProcessSelection {
    pub fn new() -> (r: Self)
        ensures
            r.selected_processes@ == Set::<u32>::empty(),
            !r.multiple_selection,
    {
        ProcessSelection { selected_processes: HashSet::new(), multiple_selection: false }
    }

    /// With multiple selection a click toggles `pid`; otherwise it becomes the only selection.
    pub fn select_process(&mut self, pid: u32)
        ensures
            final(self).multiple_selection == old(self).multiple_selection,
            final(self).selected_processes@ == after_click(
                old(self).selected_processes@,
                old(self).multiple_selection,
                pid,
            ),
    {
        if self.multiple_selection {
            if !self.selected_processes.insert(pid) {
                self.selected_processes.remove(&pid);
            }
        } else {
            self.selected_processes.clear();
            self.selected_processes.insert(pid);
            assert(self.selected_processes@ =~= set![pid]);
        }
    }

    pub fn clear(&mut self)
        ensures
            final(self).multiple_selection == old(self).multiple_selection,
            final(self).selected_processes@ == Set::<u32>::empty(),
    {
        self.selected_processes.clear();
    }

    /// Forgets selected processes that no longer exist.
    pub fn retain_existing_pids(&mut self, pids: &HashSet<u32>)
        ensures
            final(self).multiple_selection == old(self).multiple_selection,
            final(self).selected_processes@ == old(self).selected_processes@.intersect(pids@),
    {
        let mut kept: HashSet<u32> = HashSet::new();
        let ghost all = pids.iter().remaining();
        for pid in it: pids.iter()
            invariant
                it.seq() == all,
                all.unref().to_set() == pids@,
                kept@ == self.selected_processes@.intersect(all.take(it.index() as int).unref().to_set()),
        {
            let ghost i = it.index();
            if self.selected_processes.contains(pid) {
                kept.insert(*pid);
            }
            proof {
                assert(all.take(i + 1).unref() =~= all.take(i as int).unref().push(*pid));
                lemma_push_to_set(all.take(i as int).unref(), *pid);
                assert(kept@ =~= self.selected_processes@.intersect(all.take(i + 1).unref().to_set()));
            }
        }
        assert(all.take(all.len() as int) == all);
        assert(kept@ =~= self.selected_processes@.intersect(pids@));
        self.selected_processes = kept;
    }

    /// Keeps one of the selected processes (an arbitrary one) when leaving multiple selection.
    pub fn retain_single_selection(&mut self)
        ensures
            final(self).multiple_selection == old(self).multiple_selection,
            old(self).selected_processes@.is_empty() ==> final(self).selected_processes@
                == old(self).selected_processes@,
            !old(self).selected_processes@.is_empty() ==> exists|pid: u32|
                old(self).selected_processes@.contains(pid) && final(self).selected_processes@
                    == set![pid],
    {
        let mut first: Option<u32> = None;
        let ghost all = self.selected_processes.iter().remaining();
        for pid in it: self.selected_processes.iter()
            invariant
                it.seq() == all,
                all.unref().to_set() == self.selected_processes@,
                first is None <==> it.index() == 0,
                first matches Some(p) ==> self.selected_processes@.contains(p),
        {
            let ghost i = it.index();
            if first.is_none() {
                proof {
                    assert(all.unref()[i as int] == *pid);
                    assert(all.unref().contains(*pid));
                }
                first = Some(*pid);
            }
        }
        match first {
            Some(pid) => {
                self.selected_processes.clear();
                self.selected_processes.insert(pid);
                assert(self.selected_processes@ =~= set![pid]);
            },
            None => {
                proof {
                    if !self.selected_processes@.is_empty() {
                        let x = self.selected_processes@.choose();
                        assert(self.selected_processes@.contains(x));
                        assert(all.unref().to_set().contains(x));
                        assert(all.len() > 0);
                    }
                }
            },
        }
    }
}


/// Metrics of one process at one reading (CPU usage as an `f32` bit pattern).
#[derive(Debug, Clone, Copy, PartialEq, Eq, Structural)]
pub struct ProcessMetrics {
    pub cpu_usage_bits: u32,
    pub memory: u64,
    pub virtual_memory: u64,
}

impl ProcessMetrics {
    /// Placeholder reading used to align a new history with the sample history.
    pub open spec fn spec_zero() -> ProcessMetrics {
        ProcessMetrics { cpu_usage_bits: 0, memory: 0, virtual_memory: 0 }
    }

    pub fn zero() -> (r: ProcessMetrics)
        ensures
            r == Self::spec_zero(),
    {
        ProcessMetrics { cpu_usage_bits: 0, memory: 0, virtual_memory: 0 }
    }

    pub open spec fn spec_of(p: ProcessSnapshot) -> ProcessMetrics {
        ProcessMetrics {
            cpu_usage_bits: p.cpu_usage_bits,
            memory: p.memory,
            virtual_memory: p.virtual_memory,
        }
    }
}

/// Descriptive data of a process, kept for the latest reading only.
#[derive(Debug)]
pub struct ProcessDetail {
    pub pid: u32,
    pub parent: Option<u32>,
    pub name: String,
    pub cmd: Vec<String>,
    pub exe: Option<String>,
    pub environ: Vec<String>,
    pub cwd: Option<String>,
    pub root: Option<String>,
    pub accumulated_cpu_time: Interval,
    pub du: ProcessDiskUsage,
    pub status: String,
    pub user_id: Option<String>,
    pub effective_user_id: Option<String>,
    pub group_id: Option<String>,
    pub effective_group_id: Option<String>,
    pub start_time: u64,
    pub run_time: u64,
    pub session_id: Option<u32>,
    pub open_files: Option<usize>,
    pub open_files_limit: Option<usize>,
    pub thread_kind: Option<String>,
}

pub open spec fn pid_of(p: Option<crate::backend::sysinfo::PidV>) -> Option<u32> {
    match p {
        Some(v) => Some(v.0),
        None => None,
    }
}

impl ProcessDetail {
    pub open spec fn spec_from(p: ProcessSnapshot) -> ProcessDetail {
        ProcessDetail {
            pid: p.pid.0,
            parent: pid_of(p.parent),
            name: p.name,
            cmd: p.cmd,
            exe: p.exe,
            environ: p.environ,
            cwd: p.cwd,
            root: p.root,
            accumulated_cpu_time: p.accumulated_cpu_time,
            du: p.disk_usage,
            status: p.status,
            user_id: p.user_id,
            effective_user_id: p.effective_user_id,
            group_id: p.group_id,
            effective_group_id: p.effective_group_id,
            start_time: p.start_time,
            run_time: p.run_time,
            session_id: pid_of(p.session_id),
            open_files: p.open_files,
            open_files_limit: p.open_files_limit,
            thread_kind: p.thread_kind,
        }
    }

    pub fn from(p: ProcessSnapshot) -> (r: ProcessDetail)
        ensures
            r == Self::spec_from(p),
    {
        let parent = match p.parent {
            Some(v) => Some(v.0),
            None => None,
        };
        let session_id = match p.session_id {
            Some(v) => Some(v.0),
            None => None,
        };
        ProcessDetail {
            pid: p.pid.0,
            parent,
            name: p.name,
            cmd: p.cmd,
            exe: p.exe,
            environ: p.environ,
            cwd: p.cwd,
            root: p.root,
            accumulated_cpu_time: p.accumulated_cpu_time,
            du: p.disk_usage,
            status: p.status,
            user_id: p.user_id,
            effective_user_id: p.effective_user_id,
            group_id: p.group_id,
            effective_group_id: p.effective_group_id,
            start_time: p.start_time,
            run_time: p.run_time,
            session_id,
            open_files: p.open_files,
            open_files_limit: p.open_files_limit,
            thread_kind: p.thread_kind,
        }
    }
}

/// Latest details of a process and its metric history.
#[derive(Debug)]
pub struct ProcessInfo {
    pub detail: ProcessDetail,
    /// Retained metrics for selected processes. Unselected processes keep only their
    /// latest reading for the process list.
    pub metrics: VecDeque<ProcessMetrics>,
}

/// The mathematical content of a `ProcessInfo`.
pub struct ProcessRecord {
    pub detail: ProcessDetail,
    pub metrics: Seq<ProcessMetrics>,
}

pub open spec fn record_of(info: ProcessInfo) -> ProcessRecord {
    ProcessRecord { detail: info.detail, metrics: info.metrics@ }
}

pub open spec fn records(m: Map<u32, ProcessInfo>) -> Map<u32, ProcessRecord> {
    m.map_values(|info: ProcessInfo| record_of(info))
}

/// `n` placeholder readings.
pub open spec fn zeros(n: nat) -> Seq<ProcessMetrics> {
    Seq::new(n, |i: int| ProcessMetrics::spec_zero())
}

/// How one process reading changes the per-process history, given the number of
/// samples `count` already held and whether this process keeps a history.
/// A different start time under a known PID means the PID was reused: the old
/// history is discarded.
pub open spec fn absorb(
    history: Map<u32, ProcessRecord>,
    p: ProcessSnapshot,
    count: nat,
    retain: bool,
) -> Map<u32, ProcessRecord> {
    let pid = p.pid.0;
    let same_process = history.contains_key(pid) && history[pid].detail.start_time
        == p.start_time;
    let base = if same_process {
        history[pid].metrics
    } else {
        zeros(count)
    };
    let metrics = if retain {
        (if base.len() <= 1 {
            zeros(count)
        } else {
            base
        }).push(ProcessMetrics::spec_of(p))
    } else {
        seq![ProcessMetrics::spec_of(p)]
    };
    history.insert(pid, ProcessRecord { detail: ProcessDetail::spec_from(p), metrics })
}

/// Whether a process keeps a metric history: always, unless collection is limited
/// to the selection.
pub open spec fn retains_history(limit_to_selection: bool, selected: Set<u32>, pid: u32) -> bool {
    !limit_to_selection || selected.contains(pid)
}

/// The history after absorbing `procs` in order.
pub open spec fn absorb_all(
    history: Map<u32, ProcessRecord>,
    procs: Seq<ProcessSnapshot>,
    count: nat,
    limit_to_selection: bool,
    selected: Set<u32>,
) -> Map<u32, ProcessRecord>
    decreases procs.len(),
{
    if procs.len() == 0 {
        history
    } else {
        let last = procs.last();
        absorb(
            absorb_all(history, procs.drop_last(), count, limit_to_selection, selected),
            last,
            count,
            retains_history(limit_to_selection, selected, last.pid.0),
        )
    }
}

/// Drops the `excess` oldest readings of every history longer than one reading.
pub open spec fn trim(r: ProcessRecord, excess: nat) -> ProcessRecord {
    if r.metrics.len() > 1 {
        ProcessRecord { detail: r.detail, metrics: r.metrics.skip(excess as int) }
    } else {
        r
    }
}

pub open spec fn pid_set(pids: Seq<crate::backend::sysinfo::PidV>) -> Set<u32> {
    Set::new(|k: u32| exists|i: int| 0 <= i < pids.len() && #[trigger] pids[i].0 == k)
}

/// Keeps only the processes of the latest reading, trimmed to the retained window.
pub open spec fn retain_and_trim(
    history: Map<u32, ProcessRecord>,
    live: Set<u32>,
    excess: nat,
) -> Map<u32, ProcessRecord> {
    Map::new(|k: u32| history.contains_key(k) && live.contains(k), |k: u32| trim(history[k], excess))
}

/// Number of oldest entries dropped so that a history of `len` entries holds at most `max`.
pub open spec fn excess_over(len: nat, max: nat) -> nat {
    if len > max {
        (len - max) as nat
    } else {
        0
    }
}

/// The stored copy of a reading: the reading without its per-process list,
/// which lives in the per-process history instead.
pub open spec fn stored_reading(stored: SnapshotData, reading: SnapshotData) -> bool {
    &&& stored.captured_at == reading.captured_at
    &&& stored.general_stats == reading.general_stats
    &&& stored.cpu_stats == reading.cpu_stats
    &&& stored.network_stats == reading.network_stats
    &&& stored.disk_io_stats == reading.disk_io_stats
    &&& stored.pids == reading.pids
    &&& stored.processes@.len() == 0
}

/// Number of readings retained under a configuration.
pub open spec fn history_limit(config: SysinfoConfig) -> nat {
    let m = spec_max_history_readings(config.max_readings);
    if m < MAX_RETAINED_READINGS {
        m as nat
    } else {
        MAX_RETAINED_READINGS as nat
    }
}

/// Every history holds at most one reading or at least `n`.
pub open spec fn histories_span(h: Map<u32, ProcessRecord>, n: nat) -> bool {
    forall|k: u32| #[trigger]
        h.contains_key(k) ==> h[k].metrics.len() <= 1 || h[k].metrics.len() >= n
}

/// Every history holds at most one reading or exactly `n`: the `i`-th metric of a
/// retained history belongs to the `i`-th retained reading.
pub open spec fn histories_aligned(h: Map<u32, ProcessRecord>, n: nat) -> bool {
    forall|k: u32| #[trigger]
        h.contains_key(k) ==> h[k].metrics.len() <= 1 || h[k].metrics.len() == n
}

/// The PIDs of a list of process readings.
pub open spec fn process_pids(procs: Seq<ProcessSnapshot>) -> Set<u32> {
    Set::new(|k: u32| exists|i: int| 0 <= i < procs.len() && #[trigger] procs[i].pid.0 == k)
}

/// Histories of processes in `done` are aligned to `n + 1` readings, the others to `n`.
pub open spec fn aligned_except(h: Map<u32, ProcessRecord>, n: nat, done: Set<u32>) -> bool {
    forall|k: u32| #[trigger]
        h.contains_key(k) ==> h[k].metrics.len() <= 1 || h[k].metrics.len() == if done.contains(k) {
            n + 1
        } else {
            n
        }
}

/// A system reading can be applied to `pre` without trimming a history past
/// its start: every history that the reading leaves longer than one reading,
/// for a process the reading lists, holds at least as many readings as the
/// sample history drops.
pub open spec fn trims_within(pre: SysinfoSharedState, s: SnapshotData) -> bool {
    let count = pre.readings().len();
    let excess = excess_over(count + 1, history_limit(pre.config));
    let absorbed = absorb_all(
        pre.history(),
        s.processes@,
        count,
        pre.config.limit_processes_to_selection,
        pre.selected(),
    );
    forall|k: u32|
        #[trigger] absorbed.contains_key(k) && pid_set(s.pids@).contains(k) && absorbed[k].metrics.len() > 1
            ==> absorbed[k].metrics.len() >= excess
}

/// What applying `message` to `pre` gives (see [`SysinfoSharedState::receive`]).
pub open spec fn received(pre: SysinfoSharedState, post: SysinfoSharedState, message: SysinfoMessage) -> bool {
    &&& post.config == pre.config
    &&& post.applied_update_interval == pre.applied_update_interval
    &&& post.applied_temperature_interval == pre.applied_temperature_interval
    &&& post.multiple_selection() == pre.multiple_selection()
    &&& (pre.aligned() && (message matches SysinfoMessage::Snapshot(s) ==> distinct_processes(
        s.processes@,
    ) && reading_is_complete(s)) ==> post.aligned())
    &&& match message {
        SysinfoMessage::Components(t) => {
            let excess = excess_over(pre.temperature_readings().len() + 1, history_limit(pre.config));
            &&& post.temperature_readings() == pre.temperature_readings().push(t).skip(excess as int)
            &&& post.temperature_readings().len() <= history_limit(post.config)
            &&& post.history() == pre.history()
            &&& post.readings() == pre.readings()
            &&& post.selected() == pre.selected()
        },
        SysinfoMessage::Snapshot(s) => {
            let count = pre.readings().len();
            let excess = excess_over(count + 1, history_limit(pre.config));
            let absorbed = absorb_all(
                pre.history(),
                s.processes@,
                count,
                pre.config.limit_processes_to_selection,
                pre.selected(),
            );
            &&& post.history() == retain_and_trim(absorbed, pid_set(s.pids@), excess)
            &&& post.selected() == pre.selected().intersect(pid_set(s.pids@))
            &&& post.readings().len() == count + 1 - excess
            &&& post.readings().len() <= history_limit(post.config)
            &&& forall|i: int|
                0 <= i < count - excess ==> #[trigger] post.readings()[i] == pre.readings()[i
                    + excess]
            &&& stored_reading(post.readings().last(), s)
            &&& post.temperature_readings() == pre.temperature_readings()
        },
    }
}

/// Display data and preferences of the system domain. Collectors live elsewhere;
/// this only applies their messages.
pub struct SysinfoSharedState {
    pub applied_update_interval: Option<Interval>,
    pub applied_temperature_interval: Option<Interval>,
    pub config: SysinfoConfig,
    pub process_selection: ProcessSelection,
    pub process_info: HashMap<u32, ProcessInfo>,
    pub data: Vec<SnapshotData>,
    pub temperatures: Vec<ComponentsSnapshot>,
}

impl SysinfoSharedState {
    /// Both histories stay within the hard cap.
    pub open spec fn wf(&self) -> bool {
        &&& self.data@.len() <= MAX_RETAINED_READINGS
        &&& self.temperatures@.len() <= MAX_RETAINED_READINGS
    }

    /// Per-process histories line up with the sample history.
    pub open spec fn aligned(&self) -> bool {
        histories_aligned(self.history(), self.data@.len())
    }

    pub open spec fn history(&self) -> Map<u32, ProcessRecord> {
        records(self.process_info@)
    }

    pub open spec fn readings(&self) -> Seq<SnapshotData> {
        self.data@
    }

    pub open spec fn temperature_readings(&self) -> Seq<ComponentsSnapshot> {
        self.temperatures@
    }

    pub open spec fn selected(&self) -> Set<u32> {
        self.process_selection.selected_processes@
    }

    pub open spec fn multiple_selection(&self) -> bool {
        self.process_selection.multiple_selection
    }


    pub fn new() -> (r: Self)
        ensures
            r.wf(),
            r.applied_update_interval is None,
            r.applied_temperature_interval is None,
            r.history() == Map::<u32, ProcessRecord>::empty(),
            r.readings().len() == 0,
            r.temperature_readings().len() == 0,
            r.selected() == Set::<u32>::empty(),
            !r.multiple_selection(),
            r.config == SysinfoConfig::spec_default(),
    {
        let r = SysinfoSharedState {
            applied_update_interval: None,
            applied_temperature_interval: None,
            config: SysinfoConfig::default(),
            process_selection: ProcessSelection::new(),
            process_info: HashMap::new(),
            data: Vec::new(),
            temperatures: Vec::new(),
        };
        assert(r.history() =~= Map::<u32, ProcessRecord>::empty());
        r
    }

    fn limit(&self) -> (r: usize)
        ensures
            r == history_limit(self.config),
            r >= 1,
    {
        let m = self.config.max_history_readings();
        if m < MAX_RETAINED_READINGS {
            m
        } else {
            MAX_RETAINED_READINGS
        }
    }
}

/// The system domain of the frontend.
pub struct SysinfoFrontend {
    pub state: SysinfoSharedState,
}

impl SysinfoFrontend {
    pub fn new() -> (r: Self)
        ensures
            r.state.wf(),
            r.state.history() == Map::<u32, ProcessRecord>::empty(),
            r.state.readings().len() == 0,
            r.state.temperature_readings().len() == 0,
            r.state.selected() == Set::<u32>::empty(),
            r.state.config == SysinfoConfig::spec_default(),
    {
        SysinfoFrontend { state: SysinfoSharedState::new() }
    }
}

/// `n` placeholder readings.
fn zero_history(n: usize) -> (r: VecDeque<ProcessMetrics>)
    ensures
        r@ == zeros(n as nat),
{
    let mut r: VecDeque<ProcessMetrics> = VecDeque::new();
    let mut i: usize = 0;
    while i < n
        invariant
            i <= n,
            r@ == zeros(i as nat),
        decreases n - i,
    {
        r.push_back(ProcessMetrics::zero());
        i = i + 1;
        assert(r@ =~= zeros(i as nat));
    }
    r
}

/// Removes the first `n` elements.
fn drop_front<T>(v: &mut Vec<T>, n: usize)
    requires
        n <= old(v)@.len(),
    ensures
        final(v)@ == old(v)@.skip(n as int),
{
    let mut i: usize = 0;
    while i < n
        invariant
            i <= n,
            n <= old(v)@.len(),
            v@ == old(v)@.skip(i as int),
        decreases n - i,
    {
        v.remove(0);
        i = i + 1;
        assert(v@ =~= old(v)@.skip(i as int));
    }
}

/// Removes the first `n` readings.
fn drop_front_metrics(v: &mut VecDeque<ProcessMetrics>, n: usize)
    requires
        n <= old(v)@.len(),
    ensures
        final(v)@ == old(v)@.skip(n as int),
{
    let mut i: usize = 0;
    while i < n
        invariant
            i <= n,
            n <= old(v)@.len(),
            v@ == old(v)@.skip(i as int),
        decreases n - i,
    {
        v.pop_front();
        i = i + 1;
        assert(v@ =~= old(v)@.skip(i as int));
    }
}

impl SysinfoSharedState {
    /// Whether a system reading can be applied (see [`trims_within`]): it
    /// follows the reading through the per-process histories by their start
    /// times and lengths only.
    pub fn can_apply_reading(&self, snapshot: &SnapshotData) -> (r: bool)
        ensures
            r == trims_within(*self, *snapshot),
    {
        let count = self.data.len();
        let max = self.limit();
        let excess: usize = if count >= max {
            count - max + 1
        } else {
            0
        };
        assert(excess == excess_over(count as nat + 1, history_limit(self.config)));
        let limit_to_selection = self.config.limit_processes_to_selection;
        let ghost h0 = self.history();
        let ghost procs = snapshot.processes@;
        let ghost sel = self.selected();
        let mut sim: HashMap<u32, (u64, u128)> = HashMap::new();
        let mut i: usize = 0;
        while i < snapshot.processes.len()
            invariant
                i <= procs.len(),
                procs == snapshot.processes@,
                h0 == self.history(),
                sel == self.selected(),
                count == self.data@.len(),
                limit_to_selection == self.config.limit_processes_to_selection,
                forall|k: u32| #[trigger] sim@.contains_key(k) ==> sim@[k].1 <= 0x1_0000_0000_0000_0000 + i,
                forall|k: u32| #[trigger] sim@.contains_key(k) ==> {
                    let a = absorb_all(h0, procs.take(i as int), count as nat, limit_to_selection, sel);
                    &&& a.contains_key(k)
                    &&& sim@[k].0 == a[k].detail.start_time
                    &&& sim@[k].1 as nat == a[k].metrics.len()
                },
                forall|k: u32| !#[trigger] sim@.contains_key(k) ==> {
                    let a = absorb_all(h0, procs.take(i as int), count as nat, limit_to_selection, sel);
                    &&& a.contains_key(k) == h0.contains_key(k)
                    &&& h0.contains_key(k) ==> a[k] == h0[k]
                },
            decreases procs.len() - i,
        {
            let p = &snapshot.processes[i];
            let pid = p.pid.0;
            let ghost a_i = absorb_all(h0, procs.take(i as int), count as nat, limit_to_selection, sel);
            let known: Option<(u64, u128)> = match sim.get(&pid) {
                Some(entry) => Some(*entry),
                None => match self.process_info.get(&pid) {
                    Some(info) => Some((info.detail.start_time, info.metrics.len() as u128)),
                    None => None,
                },
            };
            proof {
                match known {
                    Some(e) => {
                        assert(a_i.contains_key(pid));
                        assert(e.0 == a_i[pid].detail.start_time);
                        assert(e.1 as nat == a_i[pid].metrics.len());
                    },
                    None => {
                        assert(!a_i.contains_key(pid));
                    },
                }
            }
            let base: u128 = match known {
                Some((start, len)) => {
                    if start == p.start_time {
                        len
                    } else {
                        count as u128
                    }
                },
                None => count as u128,
            };
            let retain = !limit_to_selection || self.process_selection.selected_processes.contains(&pid);
            let new_len: u128 = if retain {
                if base <= 1 {
                    count as u128 + 1
                } else {
                    base + 1
                }
            } else {
                1
            };
            sim.insert(pid, (p.start_time, new_len));
            proof {
                let a_next = absorb_all(h0, procs.take(i + 1), count as nat, limit_to_selection, sel);
                assert(procs.take(i + 1).drop_last() =~= procs.take(i as int));
                assert(procs.take(i + 1).last() == procs[i as int]);
                assert(a_next == absorb(a_i, procs[i as int], count as nat, retains_history(limit_to_selection, sel, pid)));
                assert(a_next.contains_key(pid));
                assert(a_next[pid].metrics.len() == new_len as nat);
                assert forall|k: u32| #[trigger] sim@.contains_key(k) implies a_next.contains_key(k)
                    && sim@[k].0 == a_next[k].detail.start_time && sim@[k].1 as nat == a_next[k].metrics.len() by {
                    if k != pid {
                        assert(a_next[k] == a_i[k]);
                    }
                }
                assert forall|k: u32| !#[trigger] sim@.contains_key(k) implies a_next.contains_key(k) == h0.contains_key(k)
                    && (h0.contains_key(k) ==> a_next[k] == h0[k]) by {
                    assert(k != pid);
                }
            }
            i = i + 1;
        }
        let ghost absorbed = absorb_all(h0, procs, count as nat, limit_to_selection, sel);
        proof {
            assert(procs.take(procs.len() as int) =~= procs);
        }
        let mut j: usize = 0;
        while j < snapshot.pids.len()
            invariant
                j <= snapshot.pids@.len(),
                absorbed == absorb_all(h0, procs, count as nat, limit_to_selection, sel),
                h0 == self.history(),
                forall|k: u32| #[trigger] sim@.contains_key(k) ==> absorbed.contains_key(k)
                    && sim@[k].0 == absorbed[k].detail.start_time && sim@[k].1 as nat == absorbed[k].metrics.len(),
                forall|k: u32| !#[trigger] sim@.contains_key(k) ==> absorbed.contains_key(k) == h0.contains_key(k)
                    && (h0.contains_key(k) ==> absorbed[k] == h0[k]),
                excess == excess_over(self.data@.len() + 1, history_limit(self.config)),
                absorbed == absorb_all(
                    self.history(),
                    snapshot.processes@,
                    self.data@.len(),
                    self.config.limit_processes_to_selection,
                    self.selected(),
                ),
                forall|q: int| 0 <= q < j ==> {
                    let k = #[trigger] snapshot.pids@[q].0;
                    absorbed.contains_key(k) && absorbed[k].metrics.len() > 1 ==> absorbed[k].metrics.len() >= excess
                },
            decreases snapshot.pids@.len() - j,
        {
            let pid = snapshot.pids[j].0;
            let len: Option<u128> = match sim.get(&pid) {
                Some(entry) => Some(entry.1),
                None => match self.process_info.get(&pid) {
                    Some(info) => Some(info.metrics.len() as u128),
                    None => None,
                },
            };
            proof {
                match len {
                    Some(l) => {
                        assert(absorbed.contains_key(pid) && l as nat == absorbed[pid].metrics.len());
                    },
                    None => {
                        assert(!absorbed.contains_key(pid));
                    },
                }
            }
            match len {
                Some(l) => {
                    if l > 1 && l < excess as u128 {
                        proof {
                            assert(pid_set(snapshot.pids@).contains(pid)) by {
                                assert(snapshot.pids@[j as int].0 == pid);
                            }
                            assert(absorbed.contains_key(pid) && absorbed[pid].metrics.len() > 1
                                && absorbed[pid].metrics.len() < excess);
                            assert(!trims_within(*self, *snapshot));
                        }
                        return false;
                    }
                },
                None => {},
            }
            j = j + 1;
        }
        proof {
            assert forall|k: u32|
                #[trigger] absorbed.contains_key(k) && pid_set(snapshot.pids@).contains(k) && absorbed[k].metrics.len()
                    > 1 implies absorbed[k].metrics.len() >= excess by {
                let q = choose|q: int| 0 <= q < snapshot.pids@.len() && #[trigger] snapshot.pids@[q].0 == k;
                assert(snapshot.pids@[q].0 == k);
            }
        }
        true
    }
}

impl SysinfoSharedState {
    /// Folds one process reading into the per-process history.
    fn absorb_process(&mut self, process: ProcessSnapshot, count: usize)
        ensures
            final(self).history() == absorb(
                old(self).history(),
                process,
                count as nat,
                retains_history(
                    old(self).config.limit_processes_to_selection,
                    old(self).selected(),
                    process.pid.0,
                ),
            ),
            final(self).config == old(self).config,
            final(self).process_selection == old(self).process_selection,
            final(self).data == old(self).data,
            final(self).temperatures == old(self).temperatures,
            final(self).applied_update_interval == old(self).applied_update_interval,
            final(self).applied_temperature_interval == old(self).applied_temperature_interval,
    {
        let pid = process.pid.0;
        let retain = !self.config.limit_processes_to_selection
            || self.process_selection.selected_processes.contains(&pid);
        let sample = ProcessMetrics {
            cpu_usage_bits: process.cpu_usage_bits,
            memory: process.memory,
            virtual_memory: process.virtual_memory,
        };
        let start_time = process.start_time;
        let ghost h0 = self.history();
        let previous = self.process_info.remove(&pid);
        let previous_metrics = match previous {
            Some(info) => {
                if info.detail.start_time == start_time {
                    Some(info.metrics)
                } else {
                    None
                }
            },
            None => None,
        };
        let detail = ProcessDetail::from(process);
        let metrics = if retain {
            let mut h = match previous_metrics {
                Some(m) => m,
                None => zero_history(count),
            };
            if h.len() <= 1 {
                h = zero_history(count);
            }
            h.push_back(sample);
            h
        } else {
            let mut h: VecDeque<ProcessMetrics> = VecDeque::new();
            h.push_back(sample);
            h
        };
        self.process_info.insert(pid, ProcessInfo { detail, metrics });
        proof {
            let expected = absorb(
                h0,
                process,
                count as nat,
                retains_history(
                    old(self).config.limit_processes_to_selection,
                    old(self).selected(),
                    pid,
                ),
            );
            assert(self.history() =~= expected);
        }
    }

    /// Applies one collector message.
    ///
    /// A temperature reading joins the temperature history. A system reading
    /// updates the per-process history (see [`absorb`]), forgets processes and
    /// selections that are gone, and joins the sample history without its
    /// process list. Both histories keep at most [`history_limit`] readings,
    /// dropping the oldest; per-process histories are trimmed alongside. A
    /// system reading must leave no history to trim past its start (see
    /// [`trims_within`]; [`Self::can_apply_reading`] tests it, and
    /// [`lemma_complete_reading_trims_within`] shows where it always holds).
    pub fn receive(&mut self, message: SysinfoMessage)
        requires
            old(self).wf(),
            message matches SysinfoMessage::Snapshot(s) ==> trims_within(*old(self), s),
        ensures
            final(self).wf(),
            received(*old(self), *final(self), message),
    {
        let max = self.limit();
        match message {
            SysinfoMessage::Components(snapshot) => {
                self.temperatures.push(snapshot);
                let len = self.temperatures.len();
                let excess = if len > max {
                    len - max
                } else {
                    0
                };
                drop_front(&mut self.temperatures, excess);
            },
            SysinfoMessage::Snapshot(snapshot) => {
                self.receive_reading(snapshot, max);
            },
        }
    }

    fn receive_reading(&mut self, snapshot: SnapshotData, max: usize)
        requires
            old(self).wf(),
            trims_within(*old(self), snapshot),
            max == history_limit(old(self).config),
            max >= 1,
        ensures
            final(self).wf(),
            final(self).config == old(self).config,
            final(self).applied_update_interval == old(self).applied_update_interval,
            final(self).applied_temperature_interval == old(self).applied_temperature_interval,
            final(self).multiple_selection() == old(self).multiple_selection(),
            old(self).aligned() && distinct_processes(snapshot.processes@) && reading_is_complete(snapshot)
                ==> final(self).aligned(),
            ({
                let count = old(self).readings().len();
                let excess = excess_over(count + 1, max as nat);
                &&& final(self).history() == retain_and_trim(
                    absorb_all(
                        old(self).history(),
                        snapshot.processes@,
                        count,
                        old(self).config.limit_processes_to_selection,
                        old(self).selected(),
                    ),
                    pid_set(snapshot.pids@),
                    excess,
                )
                &&& final(self).selected() == old(self).selected().intersect(
                    pid_set(snapshot.pids@),
                )
                &&& final(self).readings().len() == count + 1 - excess
                &&& forall|i: int|
                    0 <= i < count - excess ==> #[trigger] final(self).readings()[i] == old(
                        self,
                    ).readings()[i + excess]
                &&& stored_reading(final(self).readings().last(), snapshot)
                &&& final(self).temperature_readings() == old(self).temperature_readings()
            }),
    {
        let count = self.data.len();
        let ghost reading = snapshot;
        let SnapshotData {
            captured_at,
            general_stats,
            cpu_stats,
            network_stats,
            disk_io_stats,
            pids,
            processes,
        } = snapshot;
        let limit_to_selection = self.config.limit_processes_to_selection;
        let ghost h0 = self.history();
        let ghost sel = self.selected();
        let ghost procs = processes@;
        for process in it: processes
            invariant
                it.seq() == procs,
                procs == reading.processes@,
                count == self.data@.len(),
                limit_to_selection == self.config.limit_processes_to_selection,
                sel == self.selected(),
                self.config == old(self).config,
                self.process_selection == old(self).process_selection,
                self.data == old(self).data,
                self.temperatures == old(self).temperatures,
                self.applied_update_interval == old(self).applied_update_interval,
                self.applied_temperature_interval == old(self).applied_temperature_interval,
                self.history() == absorb_all(
                    h0,
                    procs.take(it.index() as int),
                    count as nat,
                    limit_to_selection,
                    sel,
                ),
                old(self).aligned() && distinct_processes(procs) ==> aligned_except(
                    self.history(),
                    count as nat,
                    process_pids(procs.take(it.index() as int)),
                ),
        {
            let ghost i = it.index();
            let ghost before = self.history();
            proof {
                assert(procs[i as int] == process);
            }
            self.absorb_process(process, count);
            proof {
                if old(self).aligned() && distinct_processes(procs) {
                    let done = process_pids(procs.take(i as int));
                    assert(!done.contains(process.pid.0)) by {
                        if done.contains(process.pid.0) {
                            let j = choose|j: int|
                                0 <= j < procs.take(i as int).len() && #[trigger] procs.take(
                                    i as int,
                                )[j].pid.0 == process.pid.0;
                            assert(procs[j].pid != procs[i as int].pid);
                        }
                    }
                    lemma_absorb_aligned(
                        before,
                        process,
                        count as nat,
                        retains_history(limit_to_selection, sel, process.pid.0),
                        done,
                    );
                    lemma_process_pids_take_next(procs, i as int);
                }
                assert(procs.take(i + 1).drop_last() =~= procs.take(i as int));
                assert(procs.take(i + 1).last() == process);
            }
        }
        proof {
            assert(procs.take(procs.len() as int) =~= procs);
            assert(procs.take(0) =~= Seq::<ProcessSnapshot>::empty());
        }
        let excess = if count + 1 > max {
            count + 1 - max
        } else {
            0
        };
        let ghost h1 = self.history();
        proof {
            if old(self).aligned() && distinct_processes(procs) && reading_is_complete(reading) {
                assert forall|k: u32|
                    #[trigger] h1.contains_key(k) && pid_set(pids@).contains(k) implies h1[k].metrics.len()
                    <= 1 || h1[k].metrics.len() == count + 1 by {
                    let i = choose|i: int| 0 <= i < pids@.len() && pids@[i].0 == k;
                    assert(lists_pid(procs, pids@[i]));
                    let j = choose|j: int|
                        0 <= j < procs.len() && #[trigger] procs[j].pid == #[trigger] pids@[i];
                    assert(procs[j].pid.0 == k);
                    assert(process_pids(procs).contains(k));
                }
            }
        }
        let mut kept: HashMap<u32, ProcessInfo> = HashMap::new();
        let mut live: HashSet<u32> = HashSet::new();
        let mut i: usize = 0;
        while i < pids.len()
            invariant
                0 <= i <= pids@.len(),
                excess <= count,
                count + 1 - excess >= 1,
                live@ == pid_set(pids@.take(i as int)),
                records(kept@) == retain_and_trim(h1, pid_set(pids@.take(i as int)), excess as nat),
                self.history() == h1.remove_keys(pid_set(pids@.take(i as int))),
                old(self).aligned() && distinct_processes(procs) && reading_is_complete(reading)
                    ==> histories_aligned(records(kept@), (count + 1 - excess) as nat),
                old(self).aligned() && distinct_processes(procs) && reading_is_complete(reading)
                    ==> forall|k: u32|
                    #[trigger] h1.contains_key(k) && pid_set(pids@).contains(k) ==> h1[k].metrics.len()
                        <= 1 || h1[k].metrics.len() == count + 1,
                forall|k: u32|
                    #[trigger] h1.contains_key(k) && pid_set(pids@).contains(k) && h1[k].metrics.len() > 1
                        ==> h1[k].metrics.len() >= excess,
                pids@ == reading.pids@,
                self.config == old(self).config,
                self.process_selection == old(self).process_selection,
                self.data == old(self).data,
                self.temperatures == old(self).temperatures,
                self.applied_update_interval == old(self).applied_update_interval,
                self.applied_temperature_interval == old(self).applied_temperature_interval,
            decreases pids@.len() - i,
        {
            let pid = pids[i].0;
            let ghost before_kept = records(kept@);
            let ghost before_self = self.history();
            let ghost pi_before = self.process_info@;
            live.insert(pid);
            proof {
                assert(pid_set(pids@).contains(pid)) by {
                    assert(pids@[i as int].0 == pid);
                }
                lemma_pid_set_take_next(pids@, i as int);
            }
            let removed = self.process_info.remove(&pid);
            match removed {
                Some(info) => {
                    proof {
                        assert(pi_before.contains_key(pid) && pi_before[pid] == info);
                        assert(before_self.contains_key(pid));
                        assert(before_self[pid] == record_of(info));
                        assert(h1.contains_key(pid));
                        assert(h1[pid] == record_of(info));
                    }
                    let ProcessInfo { detail, metrics } = info;
                    let mut metrics = metrics;
                    if metrics.len() > 1 {
                        drop_front_metrics(&mut metrics, excess);
                    }
                    let trimmed = ProcessInfo { detail, metrics };
                    proof {
                        assert(record_of(trimmed) == trim(h1[pid], excess as nat));
                        assert(!pid_set(pids@.take(i as int)).contains(pid));
                    }
                    let ghost kept_before = kept@;
                    kept.insert(pid, trimmed);
                    proof {
                        assert(records(kept@) =~= records(kept_before).insert(pid, record_of(trimmed)));
                        assert(retain_and_trim(h1, pid_set(pids@.take(i as int)).insert(pid), excess as nat)
                            =~= retain_and_trim(h1, pid_set(pids@.take(i as int)), excess as nat).insert(
                            pid,
                            trim(h1[pid], excess as nat),
                        ));
                    }
                },
                None => {
                    proof {
                        assert(!before_self.contains_key(pid));
                        assert(retain_and_trim(h1, pid_set(pids@.take(i as int)).insert(pid), excess as nat)
                            =~= retain_and_trim(h1, pid_set(pids@.take(i as int)), excess as nat));
                    }
                },
            }
            proof {
                assert(self.process_info@ =~= pi_before.remove(pid));
                assert(records(pi_before.remove(pid)) =~= records(pi_before).remove(pid));
                assert(h1.remove_keys(pid_set(pids@.take(i as int)).insert(pid)) =~= h1.remove_keys(
                    pid_set(pids@.take(i as int)),
                ).remove(pid));
                assert(self.history() =~= h1.remove_keys(pid_set(pids@.take(i + 1))));
                assert(records(kept@) =~= retain_and_trim(
                    h1,
                    pid_set(pids@.take(i + 1)),
                    excess as nat,
                ));
            }
            i = i + 1;
        }
        proof {
            assert(pids@.take(pids@.len() as int) =~= pids@);
        }
        self.process_info = kept;
        self.process_selection.retain_existing_pids(&live);
        self.data.push(
            SnapshotData {
                captured_at,
                general_stats,
                cpu_stats,
                network_stats,
                disk_io_stats,
                pids,
                processes: Vec::new(),
            },
        );
        drop_front(&mut self.data, excess);
    }
}

/// Absorbing a reading keeps histories spanning the sample history, and makes the
/// absorbed process's history at most one reading or longer than that history.
proof fn lemma_absorb_spans(h: Map<u32, ProcessRecord>, p: ProcessSnapshot, count: nat, retain: bool)
    requires
        histories_span(h, count),
    ensures
        histories_span(absorb(h, p, count, retain), count),
        absorb(h, p, count, retain).contains_key(p.pid.0),
        absorb(h, p, count, retain)[p.pid.0].metrics.len() <= 1 || absorb(
            h,
            p,
            count,
            retain,
        )[p.pid.0].metrics.len() >= count + 1,
        forall|k: u32| k != p.pid.0 ==> #[trigger] absorb(h, p, count, retain).contains_key(k) == h.contains_key(k)
            && (h.contains_key(k) ==> absorb(h, p, count, retain)[k] == h[k]),
{
    let pid = p.pid.0;
    let r = absorb(h, p, count, retain);
    if h.contains_key(pid) {
        assert(h[pid].metrics.len() <= 1 || h[pid].metrics.len() >= count);
    }
}

/// Absorbing a process not yet seen in this reading moves it from the `n`-aligned
/// histories to the `n + 1`-aligned ones.
proof fn lemma_absorb_aligned(
    h: Map<u32, ProcessRecord>,
    p: ProcessSnapshot,
    count: nat,
    retain: bool,
    done: Set<u32>,
)
    requires
        aligned_except(h, count, done),
        !done.contains(p.pid.0),
    ensures
        aligned_except(absorb(h, p, count, retain), count, done.insert(p.pid.0)),
{
    let pid = p.pid.0;
    if h.contains_key(pid) {
        assert(h[pid].metrics.len() <= 1 || h[pid].metrics.len() == count);
    }
    let r = absorb(h, p, count, retain);
    assert forall|k: u32| #[trigger] r.contains_key(k) implies r[k].metrics.len() <= 1
        || r[k].metrics.len() == if done.insert(pid).contains(k) {
        count + 1
    } else {
        count
    } by {
        if k != pid {
            assert(h.contains_key(k));
            assert(r[k] == h[k]);
        }
    }
}

proof fn lemma_process_pids_take_next(procs: Seq<ProcessSnapshot>, i: int)
    requires
        0 <= i < procs.len(),
    ensures
        process_pids(procs.take(i + 1)) == process_pids(procs.take(i)).insert(procs[i].pid.0),
{
    let a = procs.take(i + 1);
    let b = procs.take(i);
    assert forall|k: u32| #[trigger] process_pids(a).contains(k) == process_pids(b).insert(procs[i].pid.0).contains(k) by {
        if process_pids(a).contains(k) {
            let j = choose|j: int| 0 <= j < a.len() && #[trigger] a[j].pid.0 == k;
            if j < i {
                assert(b[j].pid.0 == k);
            }
        }
        if process_pids(b).contains(k) {
            let j = choose|j: int| 0 <= j < b.len() && #[trigger] b[j].pid.0 == k;
            assert(a[j].pid.0 == k);
        }
        if k == procs[i].pid.0 {
            assert(a[i].pid.0 == k);
        }
    }
    assert(process_pids(a) =~= process_pids(b).insert(procs[i].pid.0));
}

proof fn lemma_pid_set_take_next(pids: Seq<crate::backend::sysinfo::PidV>, i: int)
    requires
        0 <= i < pids.len(),
    ensures
        pid_set(pids.take(i + 1)) == pid_set(pids.take(i)).insert(pids[i].0),
{
    let a = pids.take(i + 1);
    let b = pids.take(i);
    assert forall|k: u32| #[trigger] pid_set(a).contains(k) == pid_set(b).insert(pids[i].0).contains(k) by {
        if pid_set(a).contains(k) {
            let j = choose|j: int| 0 <= j < a.len() && #[trigger] a[j].0 == k;
            if j < i {
                assert(b[j].0 == k);
            }
        }
        if pid_set(b).contains(k) {
            let j = choose|j: int| 0 <= j < b.len() && #[trigger] b[j].0 == k;
            assert(a[j].0 == k);
        }
        if k == pids[i].0 {
            assert(a[i].0 == k);
        }
    }
    assert(pid_set(a) =~= pid_set(b).insert(pids[i].0));
}

/// Absorbing any list of processes keeps histories spanning the sample history.
proof fn lemma_absorb_all_spans(
    history: Map<u32, ProcessRecord>,
    procs: Seq<ProcessSnapshot>,
    count: nat,
    limit_to_selection: bool,
    selected: Set<u32>,
)
    requires
        histories_span(history, count),
    ensures
        histories_span(absorb_all(history, procs, count, limit_to_selection, selected), count),
    decreases procs.len(),
{
    if procs.len() > 0 {
        lemma_absorb_all_spans(history, procs.drop_last(), count, limit_to_selection, selected);
        lemma_absorb_spans(
            absorb_all(history, procs.drop_last(), count, limit_to_selection, selected),
            procs.last(),
            count,
            retains_history(limit_to_selection, selected, procs.last().pid.0),
        );
    }
}

/// With distinct PIDs, the entry of a process after absorbing a whole reading
/// is the one absorbing it gave: later processes do not touch it.
proof fn lemma_absorb_all_entry(
    history: Map<u32, ProcessRecord>,
    procs: Seq<ProcessSnapshot>,
    count: nat,
    limit_to_selection: bool,
    selected: Set<u32>,
    j: int,
)
    requires
        distinct_processes(procs),
        0 <= j < procs.len(),
    ensures
        absorb_all(history, procs, count, limit_to_selection, selected).contains_key(procs[j].pid.0),
        absorb_all(history, procs, count, limit_to_selection, selected)[procs[j].pid.0] == absorb(
            absorb_all(history, procs.take(j), count, limit_to_selection, selected),
            procs[j],
            count,
            retains_history(limit_to_selection, selected, procs[j].pid.0),
        )[procs[j].pid.0],
    decreases procs.len(),
{
    if j == procs.len() - 1 {
        assert(procs.drop_last() =~= procs.take(j));
    } else {
        let front = procs.drop_last();
        assert(distinct_processes(front)) by {
            assert forall|a: int, b: int| 0 <= a < b < front.len() implies #[trigger] front[a].pid != #[trigger] front[b].pid by {
                assert(front[a] == procs[a] && front[b] == procs[b]);
            }
        }
        assert(front[j] == procs[j]);
        assert(front.take(j) =~= procs.take(j));
        lemma_absorb_all_entry(history, front, count, limit_to_selection, selected, j);
        assert(procs.last().pid != procs[j].pid);
    }
}

/// How many readings the frontend keeps for `config`: the configured number
/// (600, the full range, when it is 0), and never more than the hard cap.
pub open spec fn readings_kept(config: SysinfoConfig) -> int {
    let wanted = if config.max_readings == 0 {
        FULL_RANGE_READINGS as int
    } else {
        config.max_readings as int
    };
    if wanted < MAX_RETAINED_READINGS {
        wanted
    } else {
        MAX_RETAINED_READINGS as int
    }
}

/// Retention: after a reading is applied, the history it joins holds the
/// most recent readings, as many as there are up to the number kept for the
/// configuration (600 when `max_readings` is 0, never more than the hard
/// cap); the other history is untouched.
pub proof fn lemma_retention(pre: SysinfoSharedState, post: SysinfoSharedState, message: SysinfoMessage)
    requires
        received(pre, post, message),
    ensures
        message is Snapshot ==> {
            &&& post.readings().len() == if pre.readings().len() + 1 < readings_kept(pre.config) {
                pre.readings().len() + 1int
            } else {
                readings_kept(pre.config)
            }
            &&& post.temperature_readings() == pre.temperature_readings()
        },
        message is Components ==> {
            &&& post.temperature_readings().len() == if pre.temperature_readings().len() + 1 < readings_kept(
                pre.config,
            ) {
                pre.temperature_readings().len() + 1int
            } else {
                readings_kept(pre.config)
            }
            &&& post.readings() == pre.readings()
        },
{
    assert(history_limit(pre.config) == readings_kept(pre.config));
}

/// The PIDs of a reading that lists a process table are exactly the table's
/// PIDs (see [`crate::backend::sysinfo::SnapshotData::take`]).
pub proof fn lemma_listed_pids_are_table_keys(r: SnapshotData, table: Map<u32, ::sysinfo::Process>)
    requires
        lists_table(r, table),
    ensures
        pid_set(r.pids@) == table.dom(),
{
    assert(pid_set(r.pids@) =~= table.dom());
}

/// Absorbing process readings into histories that hold at most one reading or
/// at least `count` keeps that shape, and each history a reading touched holds
/// one reading or more than `count`.
proof fn lemma_absorb_all_lengths(
    history: Map<u32, ProcessRecord>,
    procs: Seq<ProcessSnapshot>,
    count: nat,
    limit_to_selection: bool,
    selected: Set<u32>,
)
    requires
        histories_span(history, count),
    ensures
        forall|k: u32| #[trigger]
            absorb_all(history, procs, count, limit_to_selection, selected).contains_key(k) ==> {
                let len = absorb_all(history, procs, count, limit_to_selection, selected)[k].metrics.len();
                &&& len <= 1 || len >= count
                &&& process_pids(procs).contains(k) ==> len == 1 || len > count
            },
    decreases procs.len(),
{
    if procs.len() > 0 {
        let front = procs.drop_last();
        let last = procs.last();
        lemma_absorb_all_lengths(history, front, count, limit_to_selection, selected);
        let a = absorb_all(history, front, count, limit_to_selection, selected);
        let b = absorb_all(history, procs, count, limit_to_selection, selected);
        assert forall|k: u32| #[trigger] b.contains_key(k) implies {
            let len = b[k].metrics.len();
            &&& len <= 1 || len >= count
            &&& process_pids(procs).contains(k) ==> len == 1 || len > count
        } by {
            if k != last.pid.0 {
                assert(a.contains_key(k));
                if process_pids(procs).contains(k) {
                    let j = choose|j: int| 0 <= j < procs.len() && #[trigger] procs[j].pid.0 == k;
                    assert(j < front.len());
                    assert(front[j].pid.0 == k);
                    assert(process_pids(front).contains(k));
                }
            }
        }
    }
}

/// A reading that lists a process for each of its PIDs, applied to a state
/// whose histories are aligned with its readings, never trims a history past
/// its start, whatever the configured limit: `receive` can always take it.
pub proof fn lemma_complete_reading_trims_within(pre: SysinfoSharedState, s: SnapshotData)
    requires
        pre.aligned(),
        reading_is_complete(s),
    ensures
        trims_within(pre, s),
{
    let count = pre.readings().len();
    let absorbed = absorb_all(
        pre.history(),
        s.processes@,
        count,
        pre.config.limit_processes_to_selection,
        pre.selected(),
    );
    assert(histories_span(pre.history(), count));
    lemma_absorb_all_lengths(
        pre.history(),
        s.processes@,
        count,
        pre.config.limit_processes_to_selection,
        pre.selected(),
    );
    assert forall|k: u32|
        #[trigger] absorbed.contains_key(k) && pid_set(s.pids@).contains(k) && absorbed[k].metrics.len() > 1
        implies absorbed[k].metrics.len() >= excess_over(count + 1, history_limit(pre.config)) by {
        let i = choose|i: int| 0 <= i < s.pids@.len() && #[trigger] s.pids@[i].0 == k;
        assert(lists_pid(s.processes@, s.pids@[i]));
        let j = choose|j: int| 0 <= j < s.processes@.len() && #[trigger] s.processes@[j].pid == s.pids@[i];
        assert(s.processes@[j].pid.0 == k);
        assert(process_pids(s.processes@).contains(k));
    }
}

/// After a system reading, every process of it that is still listed holds that
/// reading's details and ends its history with that reading's metrics; with
/// collection limited to the selection, an unselected process keeps only that
/// latest reading. This holds where every history held at most one reading or
/// spanned the sample history, as it does while readings list a process for
/// each of their PIDs.
pub proof fn lemma_reading_lands_in_history(
    pre: SysinfoSharedState,
    post: SysinfoSharedState,
    s: SnapshotData,
    j: int,
)
    requires
        histories_span(pre.history(), pre.readings().len()),
        received(pre, post, SysinfoMessage::Snapshot(s)),
        distinct_processes(s.processes@),
        0 <= j < s.processes@.len(),
        pid_set(s.pids@).contains(s.processes@[j].pid.0),
    ensures
        post.history().contains_key(s.processes@[j].pid.0),
        post.history()[s.processes@[j].pid.0].detail == ProcessDetail::spec_from(s.processes@[j]),
        post.history()[s.processes@[j].pid.0].metrics.len() >= 1,
        post.history()[s.processes@[j].pid.0].metrics.last() == ProcessMetrics::spec_of(s.processes@[j]),
        !retains_history(pre.config.limit_processes_to_selection, pre.selected(), s.processes@[j].pid.0)
            ==> post.history()[s.processes@[j].pid.0].metrics == seq![ProcessMetrics::spec_of(s.processes@[j])],
{
    let p = s.processes@[j];
    let pid = p.pid.0;
    let count = pre.readings().len();
    let limit = history_limit(pre.config);
    let excess = excess_over(count + 1, limit);
    let selected = pre.selected();
    let only = pre.config.limit_processes_to_selection;
    let before = absorb_all(pre.history(), s.processes@.take(j), count, only, selected);
    let absorbed = absorb_all(pre.history(), s.processes@, count, only, selected);
    lemma_absorb_all_entry(pre.history(), s.processes@, count, only, selected, j);
    let r = absorbed[pid];
    assert(post.history().contains_key(pid));
    assert(post.history()[pid] == trim(r, excess));
    assert(limit >= 1);
    assert(excess <= count);
    if retains_history(only, selected, pid) {
        assert(r.metrics.len() >= count + 1) by {
            if before.contains_key(pid) && before[pid].detail.start_time == p.start_time {
                let base = before[pid].metrics;
                if base.len() > 1 {
                    lemma_absorb_all_spans(pre.history(), s.processes@.take(j), count, only, selected);
                    assert(base.len() >= count);
                }
            }
        }
        if r.metrics.len() > 1 {
            assert(r.metrics.skip(excess as int).last() == r.metrics.last());
        }
    }
}

/// Pushing onto a sequence adds that element to the set of its elements.
pub(crate) proof fn lemma_push_to_set<A>(s: Seq<A>, x: A)
    ensures
        s.push(x).to_set() == s.to_set().insert(x),
{
    assert forall|y: A| s.push(x).contains(y) <==> (s.contains(y) || y == x) by {
        if s.contains(y) {
            let j = choose|j: int| 0 <= j < s.len() && s[j] == y;
            assert(s.push(x)[j] == y);
        }
        if y == x {
            assert(s.push(x)[s.len() as int] == x);
        }
        if s.push(x).contains(y) {
            let j = choose|j: int| 0 <= j < s.push(x).len() && s.push(x)[j] == y;
            if j < s.len() {
                assert(s[j] == y);
            }
        }
    }
    assert forall|y: A| #[trigger] s.push(x).to_set().contains(y) == s.to_set().insert(x).contains(
        y,
    ) by {
        assert(s.push(x).contains(y) <==> (s.contains(y) || y == x));
    }
    assert(s.push(x).to_set() =~= s.to_set().insert(x));
}

} // verus!
