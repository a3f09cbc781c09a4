//! Collector-side data for system samples: one complete reading per message,
//! with no retained history.
use vstd::prelude::*;
use vstd::multiset::Multiset;
use std::time::SystemTime;

use crate::time::Interval;
use crate::utils::TimedTaskEvent;

verus! {

/// Commands accepted by the system and component collectors.
#[derive(Debug, Clone, PartialEq, Eq)]
pub enum SysinfoCommand {
    /// Take a sample now.
    Refresh,
    /// Restrict detailed collection to the given processes.
    SetProcessDetailSelection { pids: Vec<PidV>, selected_only: bool },
}

/// Whether a collector handler samples on `event`: every event asks for a
/// sample, and nothing is sampled once the output is closed.
pub fn samples_on(event: &TimedTaskEvent<SysinfoCommand>, output_closed: bool) -> (r: bool)
    ensures
        r == !output_closed,
{
    match event {
        TimedTaskEvent::Tick | TimedTaskEvent::Message(_) => {},
    }
    !output_closed
}

/// Messages produced by the system and component collectors.
#[derive(Debug)]
pub enum SysinfoMessage {
    Snapshot(SnapshotData),
    Components(ComponentsSnapshot),
}

/// Temperature sensors read in one cycle.
#[derive(Debug)]
pub struct ComponentsSnapshot {
    pub captured_at: SystemTime,
    pub component_stats: ComponentStats,
}

/// One complete system reading.
#[derive(Debug)]
pub struct SnapshotData {
    pub captured_at: SystemTime,
    pub general_stats: GeneralStats,
    pub cpu_stats: CpuStats,
    pub network_stats: NetworkStats,
    pub disk_io_stats: DiskIoStats,
    pub pids: Vec<PidV>,
    /// Current processes only; the frontend owns history and removal handling.
    pub processes: Vec<ProcessSnapshot>,
}

/// A process identifier as carried in messages.
#[derive(Debug, Clone, Copy, PartialEq, Eq, Hash, Structural)]
pub struct PidV(pub u32);

/// Process data for one reading. Floating-point readings are carried as
/// their IEEE-754 bit patterns (`f32::to_bits`).
#[derive(Debug)]
pub struct ProcessSnapshot {
    pub pid: PidV,
    pub parent: Option<PidV>,
    pub name: String,
    pub cmd: Vec<String>,
    pub exe: Option<String>,
    pub environ: Vec<String>,
    pub cwd: Option<String>,
    pub root: Option<String>,
    pub cpu_usage_bits: u32,
    pub memory: u64,
    pub virtual_memory: u64,
    pub accumulated_cpu_time: Interval,
    pub disk_usage: ProcessDiskUsage,
    pub status: String,
    pub user_id: Option<String>,
    pub effective_user_id: Option<String>,
    pub group_id: Option<String>,
    pub effective_group_id: Option<String>,
    pub start_time: u64,
    pub run_time: u64,
    pub session_id: Option<PidV>,
    pub open_files: Option<usize>,
    pub open_files_limit: Option<usize>,
    pub thread_kind: Option<String>,
}

#[derive(Debug, Clone, Copy, PartialEq, Eq, Structural)]
pub struct ProcessDiskUsage {
    pub total_read_bytes: u64,
    pub read_bytes: u64,
    pub total_written_bytes: u64,
    pub written_bytes: u64,
}

#[derive(Debug, Clone, Copy, PartialEq, Eq, Structural)]
pub struct GeneralStats {
    pub total_memory: u64,
    pub used_memory: u64,
    pub total_swap: u64,
    pub used_swap: u64,
}

/// CPU usage percentages, as `f32` bit patterns.
#[derive(Debug)]
pub struct CpuStats {
    pub global_usage_bits: u32,
    pub per_cpu_usage_bits: Vec<u32>,
}

#[derive(Debug, Clone, Copy, PartialEq, Eq, Structural)]
pub struct NetworkStats {
    pub total_received: u64,
    pub total_transmitted: u64,
}

#[derive(Debug, Clone, Copy, PartialEq, Eq, Structural)]
pub struct DiskIoStats {
    pub total_read_bytes: u64,
    pub total_written_bytes: u64,
}

#[derive(Debug)]
pub struct ComponentStats {
    pub components: Vec<ComponentSnapshot>,
}

/// One temperature sensor; readings in degrees Celsius as `f32` bit patterns.
#[derive(Debug)]
pub struct ComponentSnapshot {
    pub label: String,
    pub temperature_bits: Option<u32>,
    pub max_bits: Option<u32>,
    pub critical_bits: Option<u32>,
}

impl NetworkStats {
    pub fn take_default() -> (r: Self)
        ensures
            r.total_received == 0,
            r.total_transmitted == 0,
    {
        NetworkStats { total_received: 0, total_transmitted: 0 }
    }
}

impl DiskIoStats {
    pub fn take_default() -> (r: Self)
        ensures
            r.total_read_bytes == 0,
            r.total_written_bytes == 0,
    {
        DiskIoStats { total_read_bytes: 0, total_written_bytes: 0 }
    }
}

impl ComponentStats {
    pub fn take_default() -> (r: Self)
        ensures
            r.components@.len() == 0,
    {
        ComponentStats { components: Vec::new() }
    }
}

/// The collector's system handle (processes, memory, CPUs).
#[verifier::external_type_specification]
#[verifier::external_body]
pub struct ExSystem(::sysinfo::System);

/// The network interfaces that the collector reads. The list is a hash map
/// keyed by interface name, which Verus cannot declare, so it is held here.
#[verifier::external_body]
pub struct NetworkInterfaces {
    networks: ::sysinfo::Networks,
}

/// What a `NetworkInterfaces` holds: one `(total received, total transmitted)`
/// byte-count pair per interface.
pub uninterp spec fn interface_totals(interfaces: NetworkInterfaces) -> Multiset<(u64, u64)>;

impl NetworkInterfaces {
    /// `sysinfo::Networks::new_with_refreshed_list`, with its error dropped:
    /// `None` where the platform refused. Nothing is stated of the contents,
    /// which come from the machine.
    #[verifier::external_body]
    pub(crate) fn new_with_refreshed_list() -> Option<Self> {
        ::sysinfo::Networks::new_with_refreshed_list().ok().map(|networks| NetworkInterfaces { networks })
    }

    /// `sysinfo::Networks::refresh(true)`: rereads the counters and drops the
    /// interfaces that are gone. Nothing is stated of the new contents.
    #[verifier::external_body]
    pub(crate) fn refresh(&mut self) {
        self.networks.refresh(true);
    }

    /// The byte counters of every interface, through `Networks`' `Deref` to a
    /// `HashMap` and `NetworkData::total_received` / `total_transmitted`: one
    /// pair per interface, in the map's iteration order, which is not stated.
    #[verifier::external_body]
    fn totals(&self) -> (r: Vec<(u64, u64)>)
        ensures
            r@.to_multiset() == interface_totals(*self),
    {
        self.networks.values().map(|data| (data.total_received(), data.total_transmitted())).collect()
    }
}

/// The collector's list of disks.
#[verifier::external_type_specification]
#[verifier::external_body]
pub struct ExDisks(::sysinfo::Disks);

/// One disk of a `sysinfo::Disks` list.
#[verifier::external_type_specification]
#[verifier::external_body]
pub struct ExDisk(::sysinfo::Disk);

/// A process identifier of the platform.
#[verifier::external_type_specification]
#[verifier::external_body]
pub struct ExPid(::sysinfo::Pid);

/// The identifier that `sysinfo::Pid::from_u32` makes of a number.
pub uninterp spec fn platform_pid(value: u32) -> ::sysinfo::Pid;

/// The number that `sysinfo::Pid::as_u32` makes of an identifier.
pub uninterp spec fn pid_number_of(pid: ::sysinfo::Pid) -> u32;

/// `sysinfo::Pid::from_u32`: a cast of the number into the platform's
/// identifier type (`pid_t` or `usize`). The result is named; `as_u32` casts it
/// back to the same number, since both casts keep the bits of a `u32`.
#[verifier::external_body]
fn pid_from_u32(value: u32) -> (pid: ::sysinfo::Pid)
    ensures
        pid == platform_pid(value),
        pid_number_of(pid) == value,
{
    ::sysinfo::Pid::from_u32(value)
}

/// `sysinfo::Pid::as_u32`: a cast of the identifier into a number.
#[verifier::external_body]
fn pid_as_u32(pid: ::sysinfo::Pid) -> (r: u32)
    ensures
        r == pid_number_of(pid),
{
    pid.as_u32()
}

/// `sysinfo::System::refresh_memory`: reloads the memory and swap figures.
/// What it reads depends on the machine, so nothing is stated of it.
#[verifier::external_body]
fn refresh_memory(sys: &mut ::sysinfo::System) {
    sys.refresh_memory();
}

/// What `sysinfo::System::total_memory` reads from a system handle: a figure the
/// handle holds since its last refresh, so the same handle gives the same value.
pub uninterp spec fn total_memory_of(sys: ::sysinfo::System) -> u64;

/// `sysinfo::System::total_memory`, in bytes, as last refreshed.
#[verifier::external_body]
fn total_memory(sys: &::sysinfo::System) -> (r: u64)
    ensures
        r == total_memory_of(*sys),
{
    sys.total_memory()
}

/// What `sysinfo::System::used_memory` reads from a system handle: a figure the
/// handle holds since its last refresh, so the same handle gives the same value.
pub uninterp spec fn used_memory_of(sys: ::sysinfo::System) -> u64;

/// `sysinfo::System::used_memory`, in bytes, as last refreshed.
#[verifier::external_body]
fn used_memory(sys: &::sysinfo::System) -> (r: u64)
    ensures
        r == used_memory_of(*sys),
{
    sys.used_memory()
}

/// What `sysinfo::System::total_swap` reads from a system handle: a figure the
/// handle holds since its last refresh, so the same handle gives the same value.
pub uninterp spec fn total_swap_of(sys: ::sysinfo::System) -> u64;

/// `sysinfo::System::total_swap`, in bytes, as last refreshed.
#[verifier::external_body]
fn total_swap(sys: &::sysinfo::System) -> (r: u64)
    ensures
        r == total_swap_of(*sys),
{
    sys.total_swap()
}

/// What `sysinfo::System::used_swap` reads from a system handle: a figure the
/// handle holds since its last refresh, so the same handle gives the same value.
pub uninterp spec fn used_swap_of(sys: ::sysinfo::System) -> u64;

/// `sysinfo::System::used_swap`, in bytes, as last refreshed.
#[verifier::external_body]
fn used_swap(sys: &::sysinfo::System) -> (r: u64)
    ensures
        r == used_swap_of(*sys),
{
    sys.used_swap()
}

/// What a `sysinfo::Disks` holds: its disks, in the order of its `Deref` to a
/// slice, each as the `(total_read_bytes, total_written_bytes)` of
/// `sysinfo::Disk::usage`, counters the list holds since its last refresh.
pub uninterp spec fn disk_totals_of(disks: ::sysinfo::Disks) -> Seq<(u64, u64)>;

/// The disks of `disks`, each mapped to the two totals of `Disk::usage`.
#[verifier::external_body]
fn disk_totals(disks: &::sysinfo::Disks) -> (r: Vec<(u64, u64)>)
    ensures
        r@ == disk_totals_of(*disks),
{
    disks.iter().map(|disk| (disk.usage().total_read_bytes, disk.usage().total_written_bytes)).collect()
}

/// Sum of the first components of a list of pairs.
pub open spec fn sum_firsts(pairs: Seq<(u64, u64)>) -> nat
    decreases pairs.len(),
{
    if pairs.len() == 0 {
        0
    } else {
        sum_firsts(pairs.drop_last()) + pairs.last().0 as nat
    }
}

/// Sum of the second components of a list of pairs.
pub open spec fn sum_seconds(pairs: Seq<(u64, u64)>) -> nat
    decreases pairs.len(),
{
    if pairs.len() == 0 {
        0
    } else {
        sum_seconds(pairs.drop_last()) + pairs.last().1 as nat
    }
}

/// A total clamped to the largest `u64`, as repeated `saturating_add` gives it.
pub open spec fn saturated(total: nat) -> u64 {
    if total > u64::MAX {
        u64::MAX
    } else {
        total as u64
    }
}

/// Taking one pair out of a list takes its components out of both sums.
proof fn lemma_sums_remove(pairs: Seq<(u64, u64)>, j: int)
    requires
        0 <= j < pairs.len(),
    ensures
        sum_firsts(pairs) == sum_firsts(pairs.remove(j)) + pairs[j].0,
        sum_seconds(pairs) == sum_seconds(pairs.remove(j)) + pairs[j].1,
    decreases pairs.len(),
{
    if j == pairs.len() - 1 {
        assert(pairs.remove(j) =~= pairs.drop_last());
    } else {
        let rest = pairs.drop_last();
        lemma_sums_remove(rest, j);
        assert(pairs.remove(j).drop_last() =~= rest.remove(j));
        assert(pairs.remove(j).last() == pairs.last());
    }
}

/// Totals do not depend on the order in which the readings are listed: two
/// lists holding the same pairs, each as often, have the same sums.
pub proof fn lemma_totals_order_free(a: Seq<(u64, u64)>, b: Seq<(u64, u64)>)
    requires
        a.to_multiset() == b.to_multiset(),
    ensures
        sum_firsts(a) == sum_firsts(b),
        sum_seconds(a) == sum_seconds(b),
    decreases a.len(),
{
    broadcast use vstd::seq_lib::group_to_multiset_ensures;

    if a.len() == 0 {
        assert(b.to_multiset().len() == 0);
        assert(b.len() == 0);
    } else {
        let x = a.last();
        assert(a.to_multiset().count(x) > 0) by {
            assert(a.contains(x)) by {
                assert(a[a.len() - 1] == x);
            }
        }
        assert(b.contains(x));
        let j = choose|j: int| 0 <= j < b.len() && b[j] == x;
        let front = a.drop_last();
        assert(a =~= front.push(x));
        assert(front.to_multiset() =~= b.remove(j).to_multiset()) by {
            assert(front.push(x).to_multiset() =~= front.to_multiset().insert(x));
            assert(b.remove(j).to_multiset() =~= b.to_multiset().remove(b[j]));
        }
        lemma_totals_order_free(front, b.remove(j));
        lemma_sums_remove(b, j);
    }
}

/// Adds the pairs componentwise, each sum saturating at `u64::MAX`.
fn saturating_pair_sums(pairs: &Vec<(u64, u64)>) -> (r: (u64, u64))
    ensures
        r.0 == saturated(sum_firsts(pairs@)),
        r.1 == saturated(sum_seconds(pairs@)),
{
    let mut first: u64 = 0;
    let mut second: u64 = 0;
    let mut i: usize = 0;
    while i < pairs.len()
        invariant
            i <= pairs@.len(),
            first == saturated(sum_firsts(pairs@.take(i as int))),
            second == saturated(sum_seconds(pairs@.take(i as int))),
        decreases pairs@.len() - i,
    {
        let (a, b) = pairs[i];
        assert(pairs@.take(i as int + 1).drop_last() == pairs@.take(i as int));
        first = first.saturating_add(a);
        second = second.saturating_add(b);
        i = i + 1;
    }
    assert(pairs@.take(i as int) == pairs@);
    (first, second)
}

impl PidV {
    /// The platform identifier for this number; its number is this one
    /// again, so `PidV::from(self.to_pid()) == *self`.
    pub fn to_pid(&self) -> (pid: ::sysinfo::Pid)
        ensures
            pid == platform_pid(self.0),
            pid_number_of(pid) == self.0,
    {
        pid_from_u32(self.0)
    }
}

impl From<::sysinfo::Pid> for PidV {
    /// The number of a platform identifier.
    fn from(pid: ::sysinfo::Pid) -> (r: PidV) {
        PidV(pid_as_u32(pid))
    }
}

impl From<PidV> for ::sysinfo::Pid {
    /// The platform identifier of a number (see [`PidV::to_pid`]).
    fn from(pidv: PidV) -> (r: ::sysinfo::Pid) {
        pid_from_u32(pidv.0)
    }
}

impl vstd::std_specs::convert::FromSpecImpl<PidV> for ::sysinfo::Pid {
    open spec fn obeys_from_spec() -> bool {
        true
    }

    open spec fn from_spec(v: PidV) -> ::sysinfo::Pid {
        platform_pid(v.0)
    }
}

impl vstd::std_specs::convert::FromSpecImpl<::sysinfo::Pid> for PidV {
    open spec fn obeys_from_spec() -> bool {
        true
    }

    open spec fn from_spec(v: ::sysinfo::Pid) -> PidV {
        PidV(pid_number_of(v))
    }
}

impl GeneralStats {
    /// Refreshes the memory figures of `sys` and reads them.
    pub fn take(sys: &mut ::sysinfo::System) -> (r: Self)
        ensures
            r == (GeneralStats {
                total_memory: total_memory_of(*final(sys)),
                used_memory: used_memory_of(*final(sys)),
                total_swap: total_swap_of(*final(sys)),
                used_swap: used_swap_of(*final(sys)),
            }),
    {
        refresh_memory(sys);
        GeneralStats {
            total_memory: total_memory(sys),
            used_memory: used_memory(sys),
            total_swap: total_swap(sys),
            used_swap: used_swap(sys),
        }
    }
}

impl NetworkStats {
    /// Totals over interfaces given as `(received, transmitted)` byte counts;
    /// each total saturates at `u64::MAX`.
    pub fn from_interface_totals(totals: &Vec<(u64, u64)>) -> (r: Self)
        ensures
            r.total_received == saturated(sum_firsts(totals@)),
            r.total_transmitted == saturated(sum_seconds(totals@)),
    {
        let (total_received, total_transmitted) = saturating_pair_sums(totals);
        NetworkStats { total_received, total_transmitted }
    }
}

impl NetworkStats {
    /// Bytes received and sent over all interfaces of `networks`, each total
    /// saturating at `u64::MAX`.
    pub fn take(networks: &NetworkInterfaces) -> (r: Self)
        ensures
            exists|totals: Seq<(u64, u64)>|
                totals.to_multiset() == interface_totals(*networks)
                    && r.total_received == saturated(sum_firsts(totals))
                    && r.total_transmitted == saturated(sum_seconds(totals)),
    {
        let totals = networks.totals();
        let r = Self::from_interface_totals(&totals);
        assert(r.total_received == saturated(sum_firsts(totals@)));
        r
    }
}

impl DiskIoStats {
    /// Totals over disks given as `(read, written)` byte counts; each total
    /// saturates at `u64::MAX`.
    pub fn from_disk_totals(totals: &Vec<(u64, u64)>) -> (r: Self)
        ensures
            r.total_read_bytes == saturated(sum_firsts(totals@)),
            r.total_written_bytes == saturated(sum_seconds(totals@)),
    {
        let (total_read_bytes, total_written_bytes) = saturating_pair_sums(totals);
        DiskIoStats { total_read_bytes, total_written_bytes }
    }

    /// Bytes read and written over all disks of `disks`, each total
    /// saturating at `u64::MAX`.
    pub fn take(disks: &::sysinfo::Disks) -> (r: Self)
        ensures
            r.total_read_bytes == saturated(sum_firsts(disk_totals_of(*disks))),
            r.total_written_bytes == saturated(sum_seconds(disk_totals_of(*disks))),
    {
        let totals = disk_totals(disks);
        Self::from_disk_totals(&totals)
    }
}

/// `sysinfo::System::new_all`, with its error dropped: `None` where the
/// platform refused. Nothing is stated of what it loaded.
#[verifier::external_body]
fn new_system() -> Option<::sysinfo::System> {
    ::sysinfo::System::new_all().ok()
}

/// `sysinfo::Disks::new_with_refreshed_list`, with its error dropped: `None`
/// where the platform refused. Nothing is stated of the list.
#[verifier::external_body]
fn new_disks() -> Option<::sysinfo::Disks> {
    ::sysinfo::Disks::new_with_refreshed_list().ok()
}

/// `sysinfo::Disks::refresh(true)`: rereads the disks' counters and drops the
/// disks that are gone. Nothing is stated of the new list.
#[verifier::external_body]
fn refresh_disks(disks: &mut ::sysinfo::Disks) {
    disks.refresh(true);
}

/// A process of the collector's system handle.
#[verifier::external_type_specification]
#[verifier::external_body]
pub struct ExProcess(::sysinfo::Process);

/// The temperature sensors of the machine.
#[verifier::external_type_specification]
#[verifier::external_body]
pub struct ExComponents(::sysinfo::Components);

/// One temperature sensor (what `Components` dereferences to a slice of).
#[verifier::external_type_specification]
#[verifier::external_body]
pub struct ExComponent(::sysinfo::Component);

/// `std::time::SystemTime::now`. Nothing is stated: the value is the clock's.
#[verifier::external_body]
fn now() -> SystemTime {
    SystemTime::now()
}

/// `sysinfo::System::refresh_cpu_all`: rereads the CPU usage figures.
#[verifier::external_body]
fn refresh_cpu_all(sys: &mut ::sysinfo::System) {
    sys.refresh_cpu_all();
}

/// `sysinfo::System::refresh_processes_specifics` for every process, dropping
/// the dead ones and reading every detail. Nothing is stated of the new list.
#[verifier::external_body]
fn refresh_processes(sys: &mut ::sysinfo::System) {
    sys.refresh_processes_specifics(
        ::sysinfo::ProcessesToUpdate::All,
        true,
        ::sysinfo::ProcessRefreshKind::everything(),
    );
}

/// What `sysinfo::System::global_cpu_usage` reads from a system handle, as
/// the bit pattern of the `f32`: a figure the handle holds since its last
/// refresh.
pub uninterp spec fn global_cpu_usage_of(sys: ::sysinfo::System) -> u32;

/// `sysinfo::System::global_cpu_usage`, as the bit pattern of the `f32`.
#[verifier::external_body]
fn global_cpu_usage_bits(sys: &::sysinfo::System) -> (r: u32)
    ensures
        r == global_cpu_usage_of(*sys),
{
    sys.global_cpu_usage().to_bits()
}

/// What the CPUs of a system handle hold: `sysinfo::System::cpus`, a slice in
/// the handle, each CPU taken by `sysinfo::Cpu::usage` as the bit pattern of
/// the `f32`, in the slice's order.
pub uninterp spec fn cpu_usages_of(sys: ::sysinfo::System) -> Seq<u32>;

/// `sysinfo::System::cpus`, each CPU mapped to `Cpu::usage` as a bit pattern.
#[verifier::external_body]
fn cpu_usages(sys: &::sysinfo::System) -> (r: Vec<u32>)
    ensures
        r@ == cpu_usages_of(*sys),
{
    sys.cpus().iter().map(|cpu| cpu.usage().to_bits()).collect()
}

/// What `sysinfo::System::processes` holds: the process table of a system
/// handle, each process keyed by the number of its PID.
pub uninterp spec fn process_table_of(sys: ::sysinfo::System) -> Map<u32, ::sysinfo::Process>;

/// The values of `sysinfo::System::processes`, in the map's iteration order,
/// which is not stated. Every process of the table comes out once, and the
/// table keys each process by its own PID (sysinfo inserts each process under
/// `process.pid()`).
#[verifier::external_body]
fn process_list<'a>(sys: &'a ::sysinfo::System) -> (r: Vec<&'a ::sysinfo::Process>)
    ensures
        forall|i: int|
            0 <= i < r@.len() ==> process_table_of(*sys).contains_key(process_pid_of(*#[trigger] r@[i]))
                && process_table_of(*sys)[process_pid_of(*r@[i])] == *r@[i],
        forall|i: int, j: int|
            0 <= i < j < r@.len() ==> process_pid_of(*#[trigger] r@[i]) != process_pid_of(*#[trigger] r@[j]),
        forall|k: u32|
            #[trigger] process_table_of(*sys).contains_key(k) ==> exists|i: int|
                0 <= i < r@.len() && process_pid_of(*#[trigger] r@[i]) == k,
{
    sys.processes().values().collect()
}

/// What `sysinfo::Process::pid` gives for a process: a value the process record
/// holds since its last refresh.
pub uninterp spec fn process_pid_of(process: ::sysinfo::Process) -> u32;

/// `sysinfo::Process::pid`, as its number (`Pid::as_u32`).
#[verifier::external_body]
fn process_pid(process: &::sysinfo::Process) -> (r: u32)
    ensures
        r == process_pid_of(*process),
{
    process.pid().as_u32()
}

/// What `sysinfo::Process::parent` gives for a process: a value the process record
/// holds since its last refresh.
pub uninterp spec fn process_parent_of(process: ::sysinfo::Process) -> Option<u32>;

/// `sysinfo::Process::parent`, as its number.
#[verifier::external_body]
fn process_parent(process: &::sysinfo::Process) -> (r: Option<u32>)
    ensures
        r == process_parent_of(*process),
{
    process.parent().map(|pid| pid.as_u32())
}

/// What `sysinfo::Process::name` gives for a process: a value the process record
/// holds since its last refresh.
pub uninterp spec fn process_name_of(process: ::sysinfo::Process) -> Seq<char>;

/// `sysinfo::Process::name`, converted lossily to UTF-8.
#[verifier::external_body]
fn process_name(process: &::sysinfo::Process) -> (r: String)
    ensures
        r@ == process_name_of(*process),
{
    process.name().to_string_lossy().into_owned()
}

/// What `sysinfo::Process::cmd` gives for a process: a value the process record
/// holds since its last refresh.
pub uninterp spec fn process_cmd_of(process: ::sysinfo::Process) -> Seq<Seq<char>>;

/// `sysinfo::Process::cmd`, each argument converted lossily to UTF-8.
#[verifier::external_body]
fn process_cmd(process: &::sysinfo::Process) -> (r: Vec<String>)
    ensures
        texts_of(r@) == process_cmd_of(*process),
{
    process.cmd().iter().map(|arg| arg.to_string_lossy().into_owned()).collect()
}

/// What `sysinfo::Process::exe` gives for a process: a value the process record
/// holds since its last refresh.
pub uninterp spec fn process_exe_of(process: ::sysinfo::Process) -> Option<Seq<char>>;

/// `sysinfo::Process::exe`, converted lossily to UTF-8.
#[verifier::external_body]
fn process_exe(process: &::sysinfo::Process) -> (r: Option<String>)
    ensures
        opt_text(r) == process_exe_of(*process),
{
    process.exe().map(|path| path.to_string_lossy().into_owned())
}

/// What `sysinfo::Process::environ` gives for a process: a value the process record
/// holds since its last refresh.
pub uninterp spec fn process_environ_of(process: ::sysinfo::Process) -> Seq<Seq<char>>;

/// `sysinfo::Process::environ`, each variable converted lossily to UTF-8.
#[verifier::external_body]
fn process_environ(process: &::sysinfo::Process) -> (r: Vec<String>)
    ensures
        texts_of(r@) == process_environ_of(*process),
{
    process.environ().iter().map(|var| var.to_string_lossy().into_owned()).collect()
}

/// What `sysinfo::Process::cwd` gives for a process: a value the process record
/// holds since its last refresh.
pub uninterp spec fn process_cwd_of(process: ::sysinfo::Process) -> Option<Seq<char>>;

/// `sysinfo::Process::cwd`, converted lossily to UTF-8.
#[verifier::external_body]
fn process_cwd(process: &::sysinfo::Process) -> (r: Option<String>)
    ensures
        opt_text(r) == process_cwd_of(*process),
{
    process.cwd().map(|path| path.to_string_lossy().into_owned())
}

/// What `sysinfo::Process::root` gives for a process: a value the process record
/// holds since its last refresh.
pub uninterp spec fn process_root_of(process: ::sysinfo::Process) -> Option<Seq<char>>;

/// `sysinfo::Process::root`, converted lossily to UTF-8.
#[verifier::external_body]
fn process_root(process: &::sysinfo::Process) -> (r: Option<String>)
    ensures
        opt_text(r) == process_root_of(*process),
{
    process.root().map(|path| path.to_string_lossy().into_owned())
}

/// What `sysinfo::Process::cpu_usage` gives for a process: a value the process record
/// holds since its last refresh.
pub uninterp spec fn process_cpu_usage_bits_of(process: ::sysinfo::Process) -> u32;

/// `sysinfo::Process::cpu_usage`, as the bit pattern of the `f32`.
#[verifier::external_body]
fn process_cpu_usage_bits(process: &::sysinfo::Process) -> (r: u32)
    ensures
        r == process_cpu_usage_bits_of(*process),
{
    process.cpu_usage().to_bits()
}

/// What `sysinfo::Process::memory` gives for a process: a value the process record
/// holds since its last refresh.
pub uninterp spec fn process_memory_of(process: ::sysinfo::Process) -> u64;

/// `sysinfo::Process::memory`, in bytes.
#[verifier::external_body]
fn process_memory(process: &::sysinfo::Process) -> (r: u64)
    ensures
        r == process_memory_of(*process),
{
    process.memory()
}

/// What `sysinfo::Process::virtual_memory` gives for a process: a value the process record
/// holds since its last refresh.
pub uninterp spec fn process_virtual_memory_of(process: ::sysinfo::Process) -> u64;

/// `sysinfo::Process::virtual_memory`, in bytes.
#[verifier::external_body]
fn process_virtual_memory(process: &::sysinfo::Process) -> (r: u64)
    ensures
        r == process_virtual_memory_of(*process),
{
    process.virtual_memory()
}

/// What `sysinfo::Process::accumulated_cpu_time` gives for a process: a value the process record
/// holds since its last refresh.
pub uninterp spec fn process_cpu_time_millis_of(process: ::sysinfo::Process) -> u64;

/// `sysinfo::Process::accumulated_cpu_time`, in milliseconds.
#[verifier::external_body]
fn process_cpu_time_millis(process: &::sysinfo::Process) -> (r: u64)
    ensures
        r == process_cpu_time_millis_of(*process),
{
    process.accumulated_cpu_time()
}

/// What `sysinfo::Process::disk_usage` gives for a process: counters the
/// process record holds since its last refresh.
pub uninterp spec fn process_disk_usage_of(process: ::sysinfo::Process) -> ProcessDiskUsage;

/// `sysinfo::Process::disk_usage`, field by field.
#[verifier::external_body]
fn process_disk_usage(process: &::sysinfo::Process) -> (r: ProcessDiskUsage)
    ensures
        r == process_disk_usage_of(*process),
{
    let usage = process.disk_usage();
    ProcessDiskUsage {
        total_read_bytes: usage.total_read_bytes,
        read_bytes: usage.read_bytes,
        total_written_bytes: usage.total_written_bytes,
        written_bytes: usage.written_bytes,
    }
}

/// What `sysinfo::Process::status` gives for a process: a value the process record
/// holds since its last refresh.
pub uninterp spec fn process_status_of(process: ::sysinfo::Process) -> Seq<char>;

/// `sysinfo::Process::status`, as its display text.
#[verifier::external_body]
fn process_status(process: &::sysinfo::Process) -> (r: String)
    ensures
        r@ == process_status_of(*process),
{
    process.status().to_string()
}

/// What `sysinfo::Process::user_id` gives for a process: a value the process record
/// holds since its last refresh.
pub uninterp spec fn process_user_id_of(process: ::sysinfo::Process) -> Option<Seq<char>>;

/// `sysinfo::Process::user_id`, as its display text.
#[verifier::external_body]
fn process_user_id(process: &::sysinfo::Process) -> (r: Option<String>)
    ensures
        opt_text(r) == process_user_id_of(*process),
{
    process.user_id().map(|id| (**id).to_string())
}

/// What `sysinfo::Process::effective_user_id` gives for a process: a value the process record
/// holds since its last refresh.
pub uninterp spec fn process_effective_user_id_of(process: ::sysinfo::Process) -> Option<Seq<char>>;

/// `sysinfo::Process::effective_user_id`, as its display text.
#[verifier::external_body]
fn process_effective_user_id(process: &::sysinfo::Process) -> (r: Option<String>)
    ensures
        opt_text(r) == process_effective_user_id_of(*process),
{
    process.effective_user_id().map(|id| (**id).to_string())
}

/// What `sysinfo::Process::group_id` gives for a process: a value the process record
/// holds since its last refresh.
pub uninterp spec fn process_group_id_of(process: ::sysinfo::Process) -> Option<Seq<char>>;

/// `sysinfo::Process::group_id`, as its display text.
#[verifier::external_body]
fn process_group_id(process: &::sysinfo::Process) -> (r: Option<String>)
    ensures
        opt_text(r) == process_group_id_of(*process),
{
    process.group_id().map(|id| id.to_string())
}

/// What `sysinfo::Process::effective_group_id` gives for a process: a value the process record
/// holds since its last refresh.
pub uninterp spec fn process_effective_group_id_of(process: ::sysinfo::Process) -> Option<Seq<char>>;

/// `sysinfo::Process::effective_group_id`, as its display text.
#[verifier::external_body]
fn process_effective_group_id(process: &::sysinfo::Process) -> (r: Option<String>)
    ensures
        opt_text(r) == process_effective_group_id_of(*process),
{
    process.effective_group_id().map(|id| id.to_string())
}

/// What `sysinfo::Process::start_time` gives for a process: a value the process record
/// holds since its last refresh.
pub uninterp spec fn process_start_time_of(process: ::sysinfo::Process) -> u64;

/// `sysinfo::Process::start_time`, in seconds since the epoch.
#[verifier::external_body]
fn process_start_time(process: &::sysinfo::Process) -> (r: u64)
    ensures
        r == process_start_time_of(*process),
{
    process.start_time()
}

/// What `sysinfo::Process::run_time` gives for a process: a value the process record
/// holds since its last refresh.
pub uninterp spec fn process_run_time_of(process: ::sysinfo::Process) -> u64;

/// `sysinfo::Process::run_time`, in seconds.
#[verifier::external_body]
fn process_run_time(process: &::sysinfo::Process) -> (r: u64)
    ensures
        r == process_run_time_of(*process),
{
    process.run_time()
}

/// `sysinfo::Process::session_id`, as its number. It asks the system at each
/// call, so nothing is stated.
#[verifier::external_body]
fn process_session_id(process: &::sysinfo::Process) -> Option<u32> {
    process.session_id().map(|pid| pid.as_u32())
}

/// `sysinfo::Process::open_files`. It counts the open files at each call, so
/// nothing is stated.
#[verifier::external_body]
fn process_open_files(process: &::sysinfo::Process) -> Option<usize> {
    process.open_files()
}

/// `sysinfo::Process::open_files_limit`. It reads the limit at each call, so
/// nothing is stated.
#[verifier::external_body]
fn process_open_files_limit(process: &::sysinfo::Process) -> Option<usize> {
    process.open_files_limit()
}

/// What `sysinfo::Process::thread_kind` gives for a process: a value the process record
/// holds since its last refresh.
pub uninterp spec fn process_thread_kind_of(process: ::sysinfo::Process) -> Option<Seq<char>>;

/// `sysinfo::Process::thread_kind`, as its debug text.
#[verifier::external_body]
fn process_thread_kind(process: &::sysinfo::Process) -> (r: Option<String>)
    ensures
        opt_text(r) == process_thread_kind_of(*process),
{
    process.thread_kind().map(|kind| format!("{kind:?}"))
}

/// `sysinfo::Components::refresh(true)`: rereads the sensors and drops those
/// that are gone. Nothing is stated of the new list.
#[verifier::external_body]
fn refresh_components(components: &mut ::sysinfo::Components) {
    components.refresh(true);
}

/// What a `sysinfo::Components` holds: its sensors, in the order of its
/// `Deref` to a slice, each as `(label, temperature, max, critical)` with the
/// `f32` readings as bit patterns.
pub uninterp spec fn component_readings_of(
    components: ::sysinfo::Components,
) -> Seq<(Seq<char>, Option<u32>, Option<u32>, Option<u32>)>;

/// The sensors of `sysinfo::Components`, each mapped to `Component::label`,
/// `temperature`, `max` and `critical`.
#[verifier::external_body]
fn component_readings(components: &::sysinfo::Components) -> (r: Vec<(String, Option<u32>, Option<u32>, Option<u32>)>)
    ensures
        r@.len() == component_readings_of(*components).len(),
        forall|i: int|
            0 <= i < r@.len() ==> (#[trigger] r@[i].0@, r@[i].1, r@[i].2, r@[i].3) == component_readings_of(
                *components,
            )[i],
{
    components
        .iter()
        .map(|c| (c.label().to_string(), c.temperature().map(|t| t.to_bits()), c.max().map(|t| t.to_bits()), c.critical().map(|t| t.to_bits())))
        .collect()
}

/// A reading lists, for each of its PIDs, a process with that PID.
pub open spec fn reading_is_complete(s: SnapshotData) -> bool {
    forall|i: int| 0 <= i < s.pids@.len() ==> #[trigger] lists_pid(s.processes@, s.pids@[i])
}

/// Some process of `procs` has the PID `pid`.
pub open spec fn lists_pid(procs: Seq<ProcessSnapshot>, pid: PidV) -> bool {
    exists|j: int| 0 <= j < procs.len() && #[trigger] procs[j].pid == pid
}

/// No process appears twice in a reading.
pub open spec fn distinct_processes(procs: Seq<ProcessSnapshot>) -> bool {
    forall|i: int, j: int|
        0 <= i < j < procs.len() ==> #[trigger] procs[i].pid != #[trigger] procs[j].pid
}

/// A reading whose PIDs are those of its processes, in order, lists a process
/// for each of its PIDs.
proof fn lemma_listed_with_pids(s: SnapshotData)
    requires
        s.pids@.len() == s.processes@.len(),
        forall|i: int| 0 <= i < s.pids@.len() ==> #[trigger] s.pids@[i] == s.processes@[i].pid,
    ensures
        reading_is_complete(s),
{
    assert forall|i: int| 0 <= i < s.pids@.len() implies #[trigger] lists_pid(s.processes@, s.pids@[i]) by {
        assert(s.processes@[i].pid == s.pids@[i]);
    }
}

/// The texts of a list of strings.
pub open spec fn texts_of(v: Seq<String>) -> Seq<Seq<char>> {
    Seq::new(v.len(), |i: int| v[i]@)
}

/// The text of an optional string.
pub open spec fn opt_text(o: Option<String>) -> Option<Seq<char>> {
    match o {
        Some(s) => Some(s@),
        None => None,
    }
}

/// An optional PID number as carried in messages.
pub open spec fn opt_pid(o: Option<u32>) -> Option<PidV> {
    match o {
        Some(n) => Some(PidV(n)),
        None => None,
    }
}

/// `r` is what [`ProcessSnapshot::take`] reads from `p`: each field the
/// matching getter's value (the session and open-file counts aside).
pub open spec fn read_from(r: ProcessSnapshot, p: ::sysinfo::Process) -> bool {
    &&& r.pid == PidV(process_pid_of(p))
    &&& r.parent == opt_pid(process_parent_of(p))
    &&& r.name@ == process_name_of(p)
    &&& texts_of(r.cmd@) == process_cmd_of(p)
    &&& opt_text(r.exe) == process_exe_of(p)
    &&& texts_of(r.environ@) == process_environ_of(p)
    &&& opt_text(r.cwd) == process_cwd_of(p)
    &&& opt_text(r.root) == process_root_of(p)
    &&& r.cpu_usage_bits == process_cpu_usage_bits_of(p)
    &&& r.memory == process_memory_of(p)
    &&& r.virtual_memory == process_virtual_memory_of(p)
    &&& r.accumulated_cpu_time.total_nanos() == process_cpu_time_millis_of(p) * 1_000_000
    &&& r.disk_usage == process_disk_usage_of(p)
    &&& r.status@ == process_status_of(p)
    &&& opt_text(r.user_id) == process_user_id_of(p)
    &&& opt_text(r.effective_user_id) == process_effective_user_id_of(p)
    &&& opt_text(r.group_id) == process_group_id_of(p)
    &&& opt_text(r.effective_group_id) == process_effective_group_id_of(p)
    &&& r.start_time == process_start_time_of(p)
    &&& r.run_time == process_run_time_of(p)
    &&& opt_text(r.thread_kind) == process_thread_kind_of(p)
}

impl ProcessSnapshot {
    /// Reads one process: each field is what the matching `sysinfo::Process`
    /// getter gives. The session and the open-file counts are asked of the
    /// system at each call, so nothing is stated of those.
    pub fn take(process: &::sysinfo::Process) -> (r: Self)
        ensures
            read_from(r, *process),
    {
        ProcessSnapshot {
            pid: PidV(process_pid(process)),
            parent: match process_parent(process) {
                Some(pid) => Some(PidV(pid)),
                None => None,
            },
            name: process_name(process),
            cmd: process_cmd(process),
            exe: process_exe(process),
            environ: process_environ(process),
            cwd: process_cwd(process),
            root: process_root(process),
            cpu_usage_bits: process_cpu_usage_bits(process),
            memory: process_memory(process),
            virtual_memory: process_virtual_memory(process),
            accumulated_cpu_time: Interval::from_millis(process_cpu_time_millis(process)),
            disk_usage: process_disk_usage(process),
            status: process_status(process),
            user_id: process_user_id(process),
            effective_user_id: process_effective_user_id(process),
            group_id: process_group_id(process),
            effective_group_id: process_effective_group_id(process),
            start_time: process_start_time(process),
            run_time: process_run_time(process),
            session_id: match process_session_id(process) {
                Some(pid) => Some(PidV(pid)),
                None => None,
            },
            open_files: process_open_files(process),
            open_files_limit: process_open_files_limit(process),
            thread_kind: process_thread_kind(process),
        }
    }
}

impl CpuStats {
    /// Reads the overall and per-CPU usage the handle holds.
    pub fn take(sys: &::sysinfo::System) -> (r: Self)
        ensures
            r.global_usage_bits == global_cpu_usage_of(*sys),
            r.per_cpu_usage_bits@ == cpu_usages_of(*sys),
    {
        CpuStats { global_usage_bits: global_cpu_usage_bits(sys), per_cpu_usage_bits: cpu_usages(sys) }
    }
}

/// A sensor reading as plain values: `(label, temperature, max, critical)`.
pub open spec fn component_view(c: ComponentSnapshot) -> (Seq<char>, Option<u32>, Option<u32>, Option<u32>) {
    (c.label@, c.temperature_bits, c.max_bits, c.critical_bits)
}

impl ComponentStats {
    /// Reads every sensor, in the order the sensors are held.
    pub fn take(components: &::sysinfo::Components) -> (r: Self)
        ensures
            r.components@.len() == component_readings_of(*components).len(),
            forall|i: int|
                0 <= i < r.components@.len() ==> component_view(#[trigger] r.components@[i])
                    == component_readings_of(*components)[i],
    {
        let readings = component_readings(components);
        let mut out: Vec<ComponentSnapshot> = Vec::new();
        let mut i: usize = 0;
        while i < readings.len()
            invariant
                i <= readings@.len(),
                out@.len() == i,
                readings@.len() == component_readings_of(*components).len(),
                forall|k: int|
                    0 <= k < readings@.len() ==> (#[trigger] readings@[k].0@, readings@[k].1, readings@[k].2, readings@[k].3)
                        == component_readings_of(*components)[k],
                forall|k: int|
                    0 <= k < i ==> component_view(#[trigger] out@[k]) == component_readings_of(*components)[k],
            decreases readings@.len() - i,
        {
            let (label, temperature_bits, max_bits, critical_bits) = &readings[i];
            let ghost reading = readings@[i as int];
            proof {
                assert((reading.0@, reading.1, reading.2, reading.3) == component_readings_of(*components)[i as int]);
            }
            out.push(
                ComponentSnapshot {
                    label: label.clone(),
                    temperature_bits: *temperature_bits,
                    max_bits: *max_bits,
                    critical_bits: *critical_bits,
                },
            );
            i = i + 1;
        }
        ComponentStats { components: out }
    }
}

impl ComponentsSnapshot {
    /// Rereads the sensors and takes one temperature reading of them, stamped
    /// with the clock.
    pub fn sample(components: &mut ::sysinfo::Components) -> (r: Self)
        ensures
            r.component_stats.components@.len() == component_readings_of(*final(components)).len(),
            forall|i: int|
                0 <= i < r.component_stats.components@.len() ==> component_view(
                    #[trigger] r.component_stats.components@[i],
                ) == component_readings_of(*final(components))[i],
    {
        refresh_components(components);
        ComponentsSnapshot { captured_at: now(), component_stats: ComponentStats::take(components) }
    }
}

/// A reading lists the process table `table`: each PID once, every PID of the
/// table, and with each PID the reading of the table's process for it.
pub open spec fn lists_table(r: SnapshotData, table: Map<u32, ::sysinfo::Process>) -> bool {
    &&& forall|k: int|
        0 <= k < r.pids@.len() ==> table.contains_key(#[trigger] r.pids@[k].0) && read_from(
            r.processes@[k],
            table[r.pids@[k].0],
        )
    &&& forall|a: int, b: int| 0 <= a < b < r.pids@.len() ==> #[trigger] r.pids@[a] != #[trigger] r.pids@[b]
    &&& forall|n: u32|
        #[trigger] table.contains_key(n) ==> exists|k: int| 0 <= k < r.pids@.len() && #[trigger] r.pids@[k].0 == n
}

impl SnapshotData {
    /// One reading of the machine: CPU and process figures are reread, memory
    /// too (see [`GeneralStats::take`]); network and disk totals come from the
    /// handles as they are. Every process read is listed with its PID, in the
    /// same order, so the reading lists a process for each of its PIDs.
    pub fn take(sys: &mut ::sysinfo::System, networks: &NetworkInterfaces, disks: &::sysinfo::Disks) -> (r: Self)
        ensures
            r.pids@.len() == r.processes@.len(),
            forall|i: int| 0 <= i < r.pids@.len() ==> #[trigger] r.pids@[i] == r.processes@[i].pid,
            reading_is_complete(r),
            lists_table(r, process_table_of(*final(sys))),
            exists|totals: Seq<(u64, u64)>|
                totals.to_multiset() == interface_totals(*networks)
                    && r.network_stats.total_received == saturated(sum_firsts(totals))
                    && r.network_stats.total_transmitted == saturated(sum_seconds(totals)),
            r.disk_io_stats.total_read_bytes == saturated(sum_firsts(disk_totals_of(*disks))),
            r.disk_io_stats.total_written_bytes == saturated(sum_seconds(disk_totals_of(*disks))),
            r.general_stats == (GeneralStats {
                total_memory: total_memory_of(*final(sys)),
                used_memory: used_memory_of(*final(sys)),
                total_swap: total_swap_of(*final(sys)),
                used_swap: used_swap_of(*final(sys)),
            }),
            r.cpu_stats.global_usage_bits == global_cpu_usage_of(*final(sys)),
            r.cpu_stats.per_cpu_usage_bits@ == cpu_usages_of(*final(sys)),
    {
        refresh_cpu_all(sys);
        // Include details for processes created after the handle was made.
        refresh_processes(sys);
        let general_stats = GeneralStats::take(sys);
        let cpu_stats = CpuStats::take(sys);
        let list = process_list(sys);
        let mut pids: Vec<PidV> = Vec::new();
        let mut processes: Vec<ProcessSnapshot> = Vec::new();
        let mut i: usize = 0;
        let ghost table = process_table_of(*sys);
        while i < list.len()
            invariant
                i <= list@.len(),
                pids@.len() == i,
                processes@.len() == i,
                forall|k: int| 0 <= k < i ==> #[trigger] pids@[k] == processes@[k].pid,
                forall|k: int| 0 <= k < i ==> #[trigger] pids@[k].0 == process_pid_of(*list@[k]),
                forall|k: int| 0 <= k < i ==> read_from(#[trigger] processes@[k], *list@[k]),
            decreases list@.len() - i,
        {
            let process = ProcessSnapshot::take(list[i]);
            pids.push(process.pid);
            processes.push(process);
            i = i + 1;
        }
        let r = SnapshotData {
            captured_at: now(),
            general_stats,
            cpu_stats,
            network_stats: NetworkStats::take(networks),
            disk_io_stats: DiskIoStats::take(disks),
            pids,
            processes,
        };
        proof {
            lemma_listed_with_pids(r);
            assert forall|k: int| 0 <= k < r.pids@.len() implies table.contains_key(#[trigger] r.pids@[k].0)
                && read_from(r.processes@[k], table[r.pids@[k].0]) by {
                assert(process_pid_of(*list@[k]) == r.pids@[k].0);
            }
            assert forall|a: int, b: int| 0 <= a < b < r.pids@.len() implies #[trigger] r.pids@[a] != #[trigger] r.pids@[b] by {
                assert(process_pid_of(*list@[a]) != process_pid_of(*list@[b]));
            }
            assert forall|n: u32| #[trigger] table.contains_key(n) implies exists|k: int|
                0 <= k < r.pids@.len() && #[trigger] r.pids@[k].0 == n by {
                let k = choose|k: int| 0 <= k < list@.len() && process_pid_of(*#[trigger] list@[k]) == n;
                assert(r.pids@[k].0 == n);
            }
        }
        r
    }
}

/// The live handles that one system sample is read from.
pub struct SystemCollector {
    pub sys: ::sysinfo::System,
    pub networks: NetworkInterfaces,
    pub disks: ::sysinfo::Disks,
}

impl SystemCollector {
    /// Loads everything once; `None` where the platform refuses any of the
    /// three handles.
    pub fn new() -> (r: Option<Self>) {
        let sys = match new_system() {
            Some(sys) => sys,
            None => return None,
        };
        let networks = match NetworkInterfaces::new_with_refreshed_list() {
            Some(networks) => networks,
            None => return None,
        };
        let disks = match new_disks() {
            Some(disks) => disks,
            None => return None,
        };
        Some(SystemCollector { sys, networks, disks })
    }

    /// Rereads the network and disk counters before a sample; the system
    /// handle is left as it is.
    pub fn refresh_devices(&mut self)
        ensures
            final(self).sys == old(self).sys,
    {
        self.networks.refresh();
        refresh_disks(&mut self.disks);
    }

    /// Rereads the counters and takes one reading (see [`SnapshotData::take`]),
    /// which lists a process for each of its PIDs.
    pub fn sample(&mut self) -> (r: SnapshotData)
        ensures
            r.pids@.len() == r.processes@.len(),
            reading_is_complete(r),
            lists_table(r, process_table_of(final(self).sys)),
            forall|i: int| 0 <= i < r.pids@.len() ==> #[trigger] r.pids@[i] == r.processes@[i].pid,
            r.general_stats == (GeneralStats {
                total_memory: total_memory_of(final(self).sys),
                used_memory: used_memory_of(final(self).sys),
                total_swap: total_swap_of(final(self).sys),
                used_swap: used_swap_of(final(self).sys),
            }),
            r.cpu_stats.global_usage_bits == global_cpu_usage_of(final(self).sys),
            r.cpu_stats.per_cpu_usage_bits@ == cpu_usages_of(final(self).sys),
            exists|totals: Seq<(u64, u64)>|
                totals.to_multiset() == interface_totals(final(self).networks)
                    && r.network_stats.total_received == saturated(sum_firsts(totals))
                    && r.network_stats.total_transmitted == saturated(sum_seconds(totals)),
            r.disk_io_stats.total_read_bytes == saturated(sum_firsts(disk_totals_of(final(self).disks))),
            r.disk_io_stats.total_written_bytes == saturated(sum_seconds(disk_totals_of(final(self).disks))),
    {
        self.refresh_devices();
        SnapshotData::take(&mut self.sys, &self.networks, &self.disks)
    }
}

} // verus!
