//! The frontend side of a backend connection: configuration shared with the
//! collectors, and how backend messages update what the frontend shows.
use vstd::prelude::*;

use crate::gui::app::state::FrontendState;
use crate::message::{Message, SystemId};
use crate::time::Interval;
use self::docker::{DockerConfig, docker_received};
use self::sysinfo::{SysinfoConfig, received, trims_within};
use crate::backend::docker::DockerCommand;
use crate::backend::sysinfo::{PidV, SysinfoCommand, SysinfoMessage};
use crate::message::Command;
use crate::text::same_text;
use std::collections::HashSet;
use vstd::std_specs::iter::IteratorSpec;
use vstd::string::StringExecFns;

pub mod debug;
pub mod docker;
pub mod sysinfo;

verus! {

broadcast use vstd::std_specs::hash::group_hash_axioms;

/// Most backend messages applied in one frame, so that a busy backend cannot
/// starve rendering.
pub const MESSAGES_PER_BATCH: usize = 64;

/// Preferences of both domains, as saved in a profile.
#[derive(Debug)]
pub struct FrontendConfig {
    pub sysinfo: SysinfoConfig,
    pub docker: DockerConfig,
}

impl Default for FrontendConfig {
    fn default() -> (r: Self)
        ensures
            r.sysinfo == SysinfoConfig::spec_default(),
            r.docker.socket_path@ == docker::default_socket_path(),
            r.docker.update_interval_secs == 2,
    {
        FrontendConfig { sysinfo: SysinfoConfig::default(), docker: DockerConfig::default() }
    }
}

/// One optional interval per collector.
#[derive(Debug, Clone, Copy, PartialEq, Eq, Structural)]
pub struct TargetIntervals {
    pub system: Option<Interval>,
    pub components: Option<Interval>,
    pub docker: Option<Interval>,
}

impl TargetIntervals {
    pub open spec fn spec_get(self, target: SystemId) -> Option<Interval> {
        match target {
            SystemId::System => self.system,
            SystemId::Components => self.components,
            SystemId::Docker => self.docker,
        }
    }

    pub fn new() -> (r: Self)
        ensures
            forall|t: SystemId| r.spec_get(t) is None,
    {
        TargetIntervals { system: None, components: None, docker: None }
    }

    pub fn get(&self, target: SystemId) -> (r: Option<Interval>)
        ensures
            r == self.spec_get(target),
    {
        match target {
            SystemId::System => self.system,
            SystemId::Components => self.components,
            SystemId::Docker => self.docker,
        }
    }

    pub fn set(&mut self, target: SystemId, interval: Interval)
        ensures
            final(self).spec_get(target) == Some(interval),
            forall|t: SystemId| t != target ==> final(self).spec_get(t) == old(self).spec_get(t),
    {
        match target {
            SystemId::System => self.system = Some(interval),
            SystemId::Components => self.components = Some(interval),
            SystemId::Docker => self.docker = Some(interval),
        }
    }
}

/// What the frontend knows about its connection.
#[derive(Debug)]
pub struct ConnectionStatus {
    /// Intervals the collectors confirmed.
    pub intervals: TargetIntervals,
    /// The latest error reported by the backend.
    pub error: Option<String>,
    /// The backend is gone; displayed readings are stale.
    pub disconnected: bool,
}

/// Whether the frontend can apply a message to its state: a system reading
/// must not trim a per-process history past its start (see [`trims_within`]).
pub open spec fn message_is_applicable(frontend: FrontendState, message: Message) -> bool {
    message matches Message::Sysinfo(SysinfoMessage::Snapshot(s)) ==> trims_within(frontend.sysinfo.state, s)
}

impl ConnectionStatus {
    pub fn new() -> (r: Self)
        ensures
            forall|t: SystemId| r.intervals.spec_get(t) is None,
            r.error is None,
            !r.disconnected,
    {
        ConnectionStatus { intervals: TargetIntervals::new(), error: None, disconnected: false }
    }

    /// Applies one backend message: readings go to their domain, confirmed
    /// intervals are recorded (system and temperature ones are also shown by the
    /// system domain), and a command error becomes the latest error.
    pub fn apply(&mut self, frontend: &mut FrontendState, message: Message)
        requires
            old(frontend).sysinfo.state.wf(),
            message_is_applicable(*old(frontend), message),
        ensures
            final(frontend).sysinfo.state.wf(),
            final(self).disconnected == old(self).disconnected,
            match message {
                Message::IntervalChanged { target, interval } => {
                    &&& final(self).intervals.spec_get(target) == Some(interval)
                    &&& forall|t: SystemId| t != target ==> final(self).intervals.spec_get(t) == old(
                        self,
                    ).intervals.spec_get(t)
                    &&& final(self).error == old(self).error
                    &&& final(frontend).sysinfo.state.applied_update_interval == if target
                        == SystemId::System {
                        Some(interval)
                    } else {
                        old(frontend).sysinfo.state.applied_update_interval
                    }
                    &&& final(frontend).sysinfo.state.applied_temperature_interval == if target
                        == SystemId::Components {
                        Some(interval)
                    } else {
                        old(frontend).sysinfo.state.applied_temperature_interval
                    }
                    &&& final(frontend).docker == old(frontend).docker
                    &&& final(frontend).sysinfo.state.history() == old(frontend).sysinfo.state.history()
                    &&& final(frontend).sysinfo.state.data == old(frontend).sysinfo.state.data
                    &&& final(frontend).sysinfo.state.temperatures == old(frontend).sysinfo.state.temperatures
                    &&& final(frontend).sysinfo.state.config == old(frontend).sysinfo.state.config
                    &&& final(frontend).sysinfo.state.process_selection == old(frontend).sysinfo.state.process_selection
                },
                Message::CommandError(e) => {
                    &&& final(self).error == Some(e)
                    &&& final(self).intervals == old(self).intervals
                    &&& *final(frontend) == *old(frontend)
                },
                Message::Sysinfo(m) => {
                    &&& received(old(frontend).sysinfo.state, final(frontend).sysinfo.state, m)
                    &&& final(frontend).docker == old(frontend).docker
                    &&& final(self).error == old(self).error
                    &&& final(self).intervals == old(self).intervals
                },
                Message::Docker(m) => {
                    &&& docker_received(old(frontend).docker.state, final(frontend).docker.state, m)
                    &&& final(frontend).sysinfo == old(frontend).sysinfo
                    &&& final(self).error == old(self).error
                    &&& final(self).intervals == old(self).intervals
                },
            },
    {
        match message {
            Message::Sysinfo(value) => frontend.sysinfo.state.receive(value),
            Message::Docker(value) => frontend.docker.state.receive(value),
            Message::IntervalChanged { target, interval } => {
                match target {
                    SystemId::System => {
                        frontend.sysinfo.state.applied_update_interval = Some(interval);
                    },
                    SystemId::Components => {
                        frontend.sysinfo.state.applied_temperature_interval = Some(interval);
                    },
                    SystemId::Docker => {},
                }
                self.intervals.set(target, interval);
            },
            Message::CommandError(error) => self.error = Some(error),
        }
    }

    /// The backend's message channel closed.
    pub fn mark_disconnected(&mut self)
        ensures
            final(self).disconnected,
            final(self).intervals == old(self).intervals,
            final(self).error == old(self).error,
    {
        self.disconnected = true;
    }

    /// Ends one poll of the backend's queue, in a batch that took `applied`
    /// messages before it, and says how many the batch holds if polling goes
    /// on. After a message it goes on until the batch holds
    /// [`MESSAGES_PER_BATCH`], so a busy backend cannot starve rendering; an
    /// empty queue ends the batch; a closed queue marks the connection lost
    /// and ends it.
    pub fn after_poll(&mut self, outcome: PollOutcome, applied: usize) -> (r: Option<usize>)
        requires
            applied < MESSAGES_PER_BATCH,
        ensures
            r == if outcome == PollOutcome::Received && applied + 1 < MESSAGES_PER_BATCH {
                Some((applied + 1) as usize)
            } else {
                None::<usize>
            },
            final(self).disconnected == (old(self).disconnected || outcome == PollOutcome::Closed),
            final(self).intervals == old(self).intervals,
            final(self).error == old(self).error,
    {
        match outcome {
            PollOutcome::Received => {
                if applied + 1 < MESSAGES_PER_BATCH {
                    Some(applied + 1)
                } else {
                    None
                }
            },
            PollOutcome::Empty => None,
            PollOutcome::Closed => {
                self.mark_disconnected();
                None
            },
        }
    }
}

/// What one poll of the backend's message queue found.
#[derive(Debug, Clone, Copy, PartialEq, Eq, Structural)]
pub enum PollOutcome {
    /// A message was taken and applied.
    Received,
    /// The queue held nothing.
    Empty,
    /// The backend closed its end of the queue.
    Closed,
}

/// One piece of configuration the backend has to be told about.
#[derive(Debug)]
pub enum ConfigUpdate {
    /// Collect process details for these processes only (when `selected_only`).
    Selection { pids: HashSet<u32>, selected_only: bool },
    /// Sample this Docker endpoint.
    Socket(String),
    /// Run this collector at this interval.
    Interval { target: SystemId, interval: Interval },
}

/// The mathematical content of a [`ConfigUpdate`].
pub enum UpdateView {
    Selection(Set<u32>, bool),
    Socket(Seq<char>),
    Interval(SystemId, Interval),
}

impl ConfigUpdate {
    pub open spec fn view(&self) -> UpdateView {
        match self {
            ConfigUpdate::Selection { pids, selected_only } => UpdateView::Selection(
                pids@,
                *selected_only,
            ),
            ConfigUpdate::Socket(p) => UpdateView::Socket(p@),
            ConfigUpdate::Interval { target, interval } => UpdateView::Interval(*target, *interval),
        }
    }

    /// The command that carries this update.
    pub fn to_command(&self) -> (r: Command)
        ensures
            match self.view() {
                UpdateView::Selection(pids, only) => r matches Command::Sysinfo(
                    SysinfoCommand::SetProcessDetailSelection { pids: v, selected_only },
                ) && selected_only == only && v@.map_values(|p: PidV| p.0).to_set() == pids,
                UpdateView::Socket(p) => r matches Command::Docker(DockerCommand::SetSocketPath(s))
                    && s@ == p,
                UpdateView::Interval(target, interval) => r == (Command::SetInterval {
                    target,
                    interval,
                }),
            },
    {
        match self {
            ConfigUpdate::Selection { pids, selected_only } => {
                let v = pid_list(pids);
                Command::Sysinfo(
                    SysinfoCommand::SetProcessDetailSelection { pids: v, selected_only: *selected_only },
                )
            },
            ConfigUpdate::Socket(p) => Command::Docker(
                DockerCommand::SetSocketPath(String::from_str(p.as_str())),
            ),
            ConfigUpdate::Interval { target, interval } => Command::SetInterval {
                target: *target,
                interval: *interval,
            },
        }
    }
}

/// The PIDs of a set, in the set's iteration order.
fn pid_list(pids: &HashSet<u32>) -> (r: Vec<PidV>)
    ensures
        r@.map_values(|p: PidV| p.0).to_set() == pids@,
{
    let mut out: Vec<PidV> = Vec::new();
    let ghost all = pids.iter().remaining();
    for pid in it: pids.iter()
        invariant
            it.seq() == all,
            all.unref().to_set() == pids@,
            out@.map_values(|p: PidV| p.0) == all.take(it.index() as int).unref(),
    {
        let ghost i = it.index();
        out.push(PidV(*pid));
        proof {
            assert(all.take(i + 1).unref() =~= all.take(i as int).unref().push(*pid));
            assert(out@.map_values(|p: PidV| p.0) =~= all.take(i + 1).unref());
        }
    }
    proof {
        assert(all.take(all.len() as int) =~= all);
    }
    out
}

/// A copy of a set.
pub(crate) fn copy_set(s: &HashSet<u32>) -> (r: HashSet<u32>)
    ensures
        r@ == s@,
{
    let mut out: HashSet<u32> = HashSet::new();
    let ghost all = s.iter().remaining();
    for x in it: s.iter()
        invariant
            it.seq() == all,
            all.unref().to_set() == s@,
            out@ == all.take(it.index() as int).unref().to_set(),
    {
        let ghost i = it.index();
        out.insert(*x);
        proof {
            assert(all.take(i + 1).unref() =~= all.take(i as int).unref().push(*x));
            crate::gui::backend::sysinfo::lemma_push_to_set(all.take(i as int).unref(), *x);
        }
    }
    proof {
        assert(all.take(all.len() as int) =~= all);
    }
    out
}

/// Whether every element of `a` is in `b`.
fn is_subset(a: &HashSet<u32>, b: &HashSet<u32>) -> (r: bool)
    ensures
        r == a@.subset_of(b@),
{
    let ghost all = a.iter().remaining();
    let mut ok = true;
    for x in it: a.iter()
        invariant
            it.seq() == all,
            all.unref().to_set() == a@,
            ok == forall|j: int| 0 <= j < it.index() ==> b@.contains(#[trigger] all.unref()[j]),
    {
        let ghost i = it.index();
        proof {
            assert(all.unref()[i as int] == *x);
        }
        if !b.contains(x) {
            ok = false;
        }
    }
    proof {
        if ok {
            assert forall|y: u32| a@.contains(y) implies b@.contains(y) by {
                assert(all.unref().to_set().contains(y));
                let j = choose|j: int| 0 <= j < all.unref().len() && all.unref()[j] == y;
                assert(b@.contains(all.unref()[j]));
            }
        } else {
            let j = choose|j: int| 0 <= j < all.len() && !b@.contains(#[trigger] all.unref()[j]);
            assert(all.unref().contains(all.unref()[j]));
            assert(a@.contains(all.unref()[j]));
        }
    }
    ok
}

fn same_set(a: &HashSet<u32>, b: &HashSet<u32>) -> (r: bool)
    ensures
        r == (a@ == b@),
{
    let r = is_subset(a, b) && is_subset(b, a);
    proof {
        if a@.subset_of(b@) && b@.subset_of(a@) {
            assert(a@ =~= b@);
        }
    }
    r
}

/// What the backend was last told.
pub struct SyncView {
    pub selection: Option<(Set<u32>, bool)>,
    pub socket: Option<Seq<char>>,
    pub intervals: TargetIntervals,
}

/// The interval each collector should run at under the frontend's preferences.
pub open spec fn wanted_interval(frontend: FrontendState, target: SystemId) -> Interval {
    match target {
        SystemId::System => frontend.sysinfo.state.config.update_interval,
        SystemId::Components => frontend.sysinfo.state.config.temperature_interval,
        SystemId::Docker => Interval::spec_from_secs(frontend.docker.state.config.update_interval_secs),
    }
}

pub open spec fn interval_update(sent: SyncView, frontend: FrontendState, target: SystemId) -> Seq<UpdateView> {
    if sent.intervals.spec_get(target) != Some(wanted_interval(frontend, target)) {
        seq![UpdateView::Interval(target, wanted_interval(frontend, target))]
    } else {
        seq![]
    }
}

/// The updates that bring the backend in line with the frontend: the process
/// selection, the Docker endpoint and the three intervals, each only where it
/// differs from what was last sent. Nothing once the backend is gone.
pub open spec fn planned_updates(sent: SyncView, frontend: FrontendState, disconnected: bool) -> Seq<UpdateView> {
    if disconnected {
        seq![]
    } else {
        let selection = (
            frontend.sysinfo.state.selected(),
            frontend.sysinfo.state.config.limit_processes_to_selection,
        );
        let socket = frontend.docker.state.config.socket_path@;
        let a = if sent.selection != Some(selection) {
            seq![UpdateView::Selection(selection.0, selection.1)]
        } else {
            seq![]
        };
        let b = if sent.socket != Some(socket) {
            seq![UpdateView::Socket(socket)]
        } else {
            seq![]
        };
        a + b + interval_update(sent, frontend, SystemId::System) + interval_update(
            sent,
            frontend,
            SystemId::Components,
        ) + interval_update(sent, frontend, SystemId::Docker)
    }
}

/// Recording that an update reached the backend.
pub open spec fn confirmed(sent: SyncView, u: UpdateView) -> SyncView {
    match u {
        UpdateView::Selection(p, only) => SyncView { selection: Some((p, only)), ..sent },
        UpdateView::Socket(p) => SyncView { socket: Some(p), ..sent },
        UpdateView::Interval(t, i) => SyncView {
            intervals: match t {
                SystemId::System => TargetIntervals { system: Some(i), ..sent.intervals },
                SystemId::Components => TargetIntervals { components: Some(i), ..sent.intervals },
                SystemId::Docker => TargetIntervals { docker: Some(i), ..sent.intervals },
            },
            ..sent
        },
    }
}

pub open spec fn confirmed_all(sent: SyncView, us: Seq<UpdateView>) -> SyncView
    decreases us.len(),
{
    if us.len() == 0 {
        sent
    } else {
        confirmed(confirmed_all(sent, us.drop_last()), us.last())
    }
}

/// Once every planned update reached the backend, nothing is left to send.
pub proof fn lemma_sync_settles(sent: SyncView, frontend: FrontendState, disconnected: bool)
    ensures
        planned_updates(confirmed_all(sent, planned_updates(sent, frontend, disconnected)), frontend, disconnected)
            == Seq::<UpdateView>::empty(),
{
    let plan = planned_updates(sent, frontend, disconnected);
    let after = confirmed_all(sent, plan);
    if !disconnected {
        lemma_confirmed_all_reaches(sent, plan, frontend);
    }
    assert(planned_updates(after, frontend, disconnected) =~= Seq::<UpdateView>::empty());
}

/// Confirming a plan makes every planned value the recorded one.
proof fn lemma_confirmed_all_reaches(sent: SyncView, plan: Seq<UpdateView>, frontend: FrontendState)
    requires
        plan == planned_updates(sent, frontend, false),
    ensures
        ({
            let after = confirmed_all(sent, plan);
            &&& after.selection == Some(
                (
                    frontend.sysinfo.state.selected(),
                    frontend.sysinfo.state.config.limit_processes_to_selection,
                ),
            )
            &&& after.socket == Some(frontend.docker.state.config.socket_path@)
            &&& forall|t: SystemId| #[trigger]
                after.intervals.spec_get(t) == Some(wanted_interval(frontend, t))
        }),
{
    let selection = (
        frontend.sysinfo.state.selected(),
        frontend.sysinfo.state.config.limit_processes_to_selection,
    );
    let socket = frontend.docker.state.config.socket_path@;
    let a = if sent.selection != Some(selection) {
        seq![UpdateView::Selection(selection.0, selection.1)]
    } else {
        seq![]
    };
    let b = if sent.socket != Some(socket) {
        seq![UpdateView::Socket(socket)]
    } else {
        seq![]
    };
    let c = interval_update(sent, frontend, SystemId::System);
    let d = interval_update(sent, frontend, SystemId::Components);
    let e = interval_update(sent, frontend, SystemId::Docker);
    lemma_confirmed_all_append(sent, a, b);
    lemma_confirmed_all_append(sent, a + b, c);
    lemma_confirmed_all_append(sent, a + b + c, d);
    lemma_confirmed_all_append(sent, a + b + c + d, e);
    reveal_with_fuel(confirmed_all, 2);
    let s1 = confirmed_all(sent, a);
    let s2 = confirmed_all(s1, b);
    let s3 = confirmed_all(s2, c);
    let s4 = confirmed_all(s3, d);
    let s5 = confirmed_all(s4, e);
    assert(s5.intervals.spec_get(SystemId::System) == Some(wanted_interval(frontend, SystemId::System)));
    assert(s5.intervals.spec_get(SystemId::Components) == Some(
        wanted_interval(frontend, SystemId::Components),
    ));
    assert(s5.intervals.spec_get(SystemId::Docker) == Some(wanted_interval(frontend, SystemId::Docker)));
    assert forall|t: SystemId| #[trigger]
        s5.intervals.spec_get(t) == Some(wanted_interval(frontend, t)) by {
        match t {
            SystemId::System => {},
            SystemId::Components => {},
            SystemId::Docker => {},
        }
    }
}

proof fn lemma_confirmed_all_append(sent: SyncView, x: Seq<UpdateView>, y: Seq<UpdateView>)
    ensures
        confirmed_all(sent, x + y) == confirmed_all(confirmed_all(sent, x), y),
    decreases y.len(),
{
    if y.len() == 0 {
        assert(x + y =~= x);
    } else {
        lemma_confirmed_all_append(sent, x, y.drop_last());
        assert((x + y).drop_last() =~= x + y.drop_last());
        assert((x + y).last() == y.last());
    }
}

/// What the frontend last told the backend, so that only changes are sent.
pub struct ConfigSync {
    pub selection: Option<(HashSet<u32>, bool)>,
    pub socket: Option<String>,
    pub intervals: TargetIntervals,
}

impl ConfigSync {
    pub open spec fn view(&self) -> SyncView {
        SyncView {
            selection: match self.selection {
                Some((p, only)) => Some((p@, only)),
                None => None,
            },
            socket: match self.socket {
                Some(p) => Some(p@),
                None => None,
            },
            intervals: self.intervals,
        }
    }

    pub fn new() -> (r: Self)
        ensures
            r.view().selection is None,
            r.view().socket is None,
            forall|t: SystemId| r.view().intervals.spec_get(t) is None,
    {
        ConfigSync { selection: None, socket: None, intervals: TargetIntervals::new() }
    }

    /// The updates to send now (see [`planned_updates`]).
    pub fn plan(&self, frontend: &FrontendState, disconnected: bool) -> (r: Vec<ConfigUpdate>)
        ensures
            r@.map_values(|u: ConfigUpdate| u.view()) == planned_updates(self.view(), *frontend, disconnected),
    {
        let mut out: Vec<ConfigUpdate> = Vec::new();
        if disconnected {
            assert(out@.map_values(|u: ConfigUpdate| u.view()) =~= Seq::<UpdateView>::empty());
            return out;
        }
        let state = &frontend.sysinfo.state;
        let only = state.config.limit_processes_to_selection;
        let selection_differs = match &self.selection {
            Some((p, o)) => !(*o == only && same_set(p, &state.process_selection.selected_processes)),
            None => true,
        };
        if selection_differs {
            out.push(
                ConfigUpdate::Selection {
                    pids: copy_set(&state.process_selection.selected_processes),
                    selected_only: only,
                },
            );
        }
        let socket = &frontend.docker.state.config.socket_path;
        let socket_differs = match &self.socket {
            Some(p) => !same_text(p.as_str(), socket.as_str()),
            None => true,
        };
        if socket_differs {
            out.push(ConfigUpdate::Socket(String::from_str(socket.as_str())));
        }
        let ghost ab = out@.map_values(|u: ConfigUpdate| u.view());
        let targets = [SystemId::System, SystemId::Components, SystemId::Docker];
        let wanted = [
            state.config.update_interval,
            state.config.temperature_interval,
            Interval::from_secs(frontend.docker.state.config.update_interval_secs),
        ];
        let mut k: usize = 0;
        while k < 3
            invariant
                0 <= k <= 3,
                targets@ == seq![SystemId::System, SystemId::Components, SystemId::Docker],
                forall|j: int| 0 <= j < 3 ==> #[trigger] wanted@[j] == wanted_interval(*frontend, targets@[j]),
                out@.map_values(|u: ConfigUpdate| u.view()) == ab + interval_updates_upto(self.view(), *frontend, k as nat),
            decreases 3 - k,
        {
            let target = targets[k];
            let interval = wanted[k];
            let differs = match self.intervals.get(target) {
                Some(i) => i != interval,
                None => true,
            };
            let ghost before = out@.map_values(|u: ConfigUpdate| u.view());
            let ghost before_out = out@;
            if differs {
                out.push(ConfigUpdate::Interval { target, interval });
                proof {
                    assert(out@ == before_out.push(ConfigUpdate::Interval { target, interval }));
                    assert(out@.map_values(|u: ConfigUpdate| u.view()) =~= before.push(UpdateView::Interval(target, interval)));
                }
            }
            proof {
                assert(differs == (self.view().intervals.spec_get(target) != Some(interval)));
                assert(out@.map_values(|u: ConfigUpdate| u.view()) =~= before + interval_update(self.view(), *frontend, target));
            }
            proof {
                assert(target == targets@[k as int]);
                assert(interval == wanted_interval(*frontend, target));
                let sv = self.view();
                if k == 0 {
                    assert(interval_updates_upto(sv, *frontend, 1) =~= interval_updates_upto(sv, *frontend, 0) + interval_update(sv, *frontend, target));
                } else if k == 1 {
                    assert(interval_updates_upto(sv, *frontend, 2) =~= interval_updates_upto(sv, *frontend, 1) + interval_update(sv, *frontend, target));
                } else {
                    assert(interval_updates_upto(sv, *frontend, 3) =~= interval_updates_upto(sv, *frontend, 2) + interval_update(sv, *frontend, target));
                }
                assert(out@.map_values(|u: ConfigUpdate| u.view()) =~= ab + interval_updates_upto(
                    self.view(),
                    *frontend,
                    (k + 1) as nat,
                ));
            }
            k = k + 1;
        }
        proof {
            assert(ab + interval_updates_upto(self.view(), *frontend, 3) =~= planned_updates(
                self.view(),
                *frontend,
                disconnected,
            ));
        }
        out
    }

    /// Records that `update` reached the backend.
    pub fn confirm(&mut self, update: ConfigUpdate)
        ensures
            final(self).view() == confirmed(old(self).view(), update.view()),
    {
        match update {
            ConfigUpdate::Selection { pids, selected_only } => {
                self.selection = Some((pids, selected_only));
            },
            ConfigUpdate::Socket(p) => {
                self.socket = Some(p);
            },
            ConfigUpdate::Interval { target, interval } => {
                self.intervals.set(target, interval);
                proof {
                    assert(self.intervals.spec_get(SystemId::System) == old(self).intervals.spec_get(SystemId::System) || target == SystemId::System);
                    assert(self.intervals.spec_get(SystemId::Components) == old(self).intervals.spec_get(SystemId::Components) || target == SystemId::Components);
                    assert(self.intervals.spec_get(SystemId::Docker) == old(self).intervals.spec_get(SystemId::Docker) || target == SystemId::Docker);
                }
            },
        }
    }
}

/// The interval updates for the first `k` collectors (system, temperatures, Docker).
pub open spec fn interval_updates_upto(sent: SyncView, frontend: FrontendState, k: nat) -> Seq<UpdateView> {
    let a = if k >= 1 {
        interval_update(sent, frontend, SystemId::System)
    } else {
        seq![]
    };
    let b = if k >= 2 {
        interval_update(sent, frontend, SystemId::Components)
    } else {
        seq![]
    };
    let c = if k >= 3 {
        interval_update(sent, frontend, SystemId::Docker)
    } else {
        seq![]
    };
    a + b + c
}

} // verus!
