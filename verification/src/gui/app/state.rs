//! Display data and preferences of both domains; collectors live in the backend.
use vstd::prelude::*;

use crate::gui::backend::FrontendConfig;
use crate::gui::backend::docker::DockerFrontend;
use crate::gui::backend::sysinfo::{ProcessRecord, SysinfoConfig, SysinfoFrontend};

verus! {

pub struct FrontendState {
    pub sysinfo: SysinfoFrontend,
    pub docker: DockerFrontend,
}

impl FrontendState {
    pub fn new() -> (r: Self)
        ensures
            r.sysinfo.state.wf(),
            r.sysinfo.state.config == SysinfoConfig::spec_default(),
            r.sysinfo.state.history() == Map::<u32, ProcessRecord>::empty(),
            r.sysinfo.state.readings().len() == 0,
            r.docker.state.config.socket_path@ == crate::gui::backend::docker::default_socket_path(),
            r.docker.state.config.update_interval_secs == 2,
            !r.docker.state.state.connected,
    {
        FrontendState { sysinfo: SysinfoFrontend::new(), docker: DockerFrontend::new() }
    }

    /// The preferences of both domains.
    pub fn config(&self) -> (r: FrontendConfig)
        ensures
            r.sysinfo == self.sysinfo.state.config,
            r.docker.socket_path@ == self.docker.state.config.socket_path@,
            r.docker.update_interval_secs == self.docker.state.config.update_interval_secs,
    {
        FrontendConfig {
            sysinfo: self.sysinfo.state.config,
            docker: self.docker.state.config.duplicate(),
        }
    }

    /// Replaces the preferences of both domains; display data stays.
    pub fn apply_config(&mut self, config: &FrontendConfig)
        ensures
            final(self).sysinfo.state.config == config.sysinfo,
            final(self).docker.state.config.socket_path@ == config.docker.socket_path@,
            final(self).docker.state.config.update_interval_secs == config.docker.update_interval_secs,
            final(self).sysinfo.state.history() == old(self).sysinfo.state.history(),
            final(self).sysinfo.state.data == old(self).sysinfo.state.data,
            final(self).sysinfo.state.temperatures == old(self).sysinfo.state.temperatures,
            final(self).sysinfo.state.process_selection == old(self).sysinfo.state.process_selection,
            final(self).sysinfo.state.applied_update_interval == old(self).sysinfo.state.applied_update_interval,
            final(self).sysinfo.state.applied_temperature_interval == old(self).sysinfo.state.applied_temperature_interval,
            final(self).docker.state.state == old(self).docker.state.state,
            old(self).sysinfo.state.wf() ==> final(self).sysinfo.state.wf(),
    {
        self.sysinfo.state.config = config.sysinfo;
        self.docker.state.config = config.docker.duplicate();
    }
}

} // verus!
