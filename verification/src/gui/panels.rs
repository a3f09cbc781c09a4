//! Panel kinds; a tab pairs one with an identifier for independently configured instances.
use vstd::prelude::*;

verus! {

#[derive(Debug, Clone, Copy, PartialEq, Eq, Hash, Structural)]
pub enum PanelId {
    Cpu,
    Memory,
    Processes,
    SelectedProcess,
    Network,
    DiskIo,
    Dashboard,
    Settings,
    Temperature,
    TemperatureChart,
    Containers,
    Images,
}

/// The domain that provides a panel.
#[derive(Debug, Clone, Copy, PartialEq, Eq, Structural)]
pub enum Domain {
    Sysinfo,
    Docker,
}

impl PanelId {
    pub open spec fn spec_domain(self) -> Domain {
        match self {
            PanelId::Containers | PanelId::Images => Domain::Docker,
            _ => Domain::Sysinfo,
        }
    }

    /// Container and image panels come from the Docker domain, all others from the
    /// system domain.
    pub fn domain(&self) -> (r: Domain)
        ensures
            r == self.spec_domain(),
    {
        match self {
            PanelId::Containers | PanelId::Images => Domain::Docker,
            PanelId::Cpu
            | PanelId::Memory
            | PanelId::Processes
            | PanelId::SelectedProcess
            | PanelId::Network
            | PanelId::DiskIo
            | PanelId::Dashboard
            | PanelId::Settings
            | PanelId::Temperature
            | PanelId::TemperatureChart => Domain::Sysinfo,
        }
    }
}

/// The panels each domain offers in its menu, in menu order.
pub open spec fn spec_panels(domain: Domain) -> Seq<PanelId> {
    match domain {
        Domain::Sysinfo => seq![
            PanelId::Cpu,
            PanelId::Memory,
            PanelId::Processes,
            PanelId::SelectedProcess,
            PanelId::Network,
            PanelId::DiskIo,
            PanelId::Dashboard,
            PanelId::Settings,
            PanelId::Temperature,
            PanelId::TemperatureChart,
        ],
        Domain::Docker => seq![PanelId::Containers, PanelId::Images],
    }
}

/// The panels `domain` offers, in menu order.
pub fn panels(domain: Domain) -> (r: Vec<PanelId>)
    ensures
        r@ == spec_panels(domain),
{
    match domain {
        Domain::Sysinfo => vec![
            PanelId::Cpu,
            PanelId::Memory,
            PanelId::Processes,
            PanelId::SelectedProcess,
            PanelId::Network,
            PanelId::DiskIo,
            PanelId::Dashboard,
            PanelId::Settings,
            PanelId::Temperature,
            PanelId::TemperatureChart,
        ],
        Domain::Docker => vec![PanelId::Containers, PanelId::Images],
    }
}

/// Every panel is offered by its own domain, and by no other.
pub proof fn lemma_panels_belong_to_their_domain(domain: Domain, panel: PanelId)
    ensures
        spec_panels(domain).contains(panel) <==> panel.spec_domain() == domain,
{
    let listed = spec_panels(domain);
    if panel.spec_domain() == domain {
        let k: int = match panel {
            PanelId::Cpu => 0,
            PanelId::Memory => 1,
            PanelId::Processes => 2,
            PanelId::SelectedProcess => 3,
            PanelId::Network => 4,
            PanelId::DiskIo => 5,
            PanelId::Dashboard => 6,
            PanelId::Settings => 7,
            PanelId::Temperature => 8,
            PanelId::TemperatureChart => 9,
            PanelId::Containers => 0,
            PanelId::Images => 1,
        };
        assert(listed[k] == panel);
    }
    if listed.contains(panel) {
        let k = choose|k: int| 0 <= k < listed.len() && listed[k] == panel;
        assert(listed[k].spec_domain() == domain);
    }
}

impl PanelId {
    pub open spec fn spec_title(self) -> Seq<char> {
        match self {
            PanelId::Cpu => "CPU"@,
            PanelId::Memory => "Memory"@,
            PanelId::Processes => "Processes"@,
            PanelId::SelectedProcess => "Selected Process"@,
            PanelId::Network => "Network"@,
            PanelId::DiskIo => "Disk I/O"@,
            PanelId::Dashboard => "Dashboard"@,
            PanelId::Settings => "Sysinfo Settings"@,
            PanelId::Temperature => "Temperatures"@,
            PanelId::TemperatureChart => "Temperature Chart"@,
            PanelId::Containers => "Containers"@,
            PanelId::Images => "Images"@,
        }
    }

    pub open spec fn spec_description(self) -> Seq<char> {
        match self {
            PanelId::Cpu => "Shows CPU usage"@,
            PanelId::Memory => "Shows memory usage"@,
            PanelId::Processes => "Shows process information"@,
            PanelId::SelectedProcess => "Shows details for a selected process"@,
            PanelId::Network => "Shows network I/O usage"@,
            PanelId::DiskIo => "Shows disk I/O usage"@,
            PanelId::Dashboard => "Shows all graphs in a responsive grid"@,
            PanelId::Settings => "Configure sysinfo backend settings"@,
            PanelId::Temperature => "Shows component temperatures"@,
            PanelId::TemperatureChart => "Shows temperature history chart"@,
            PanelId::Containers => "Lists running containers"@,
            PanelId::Images => "Lists docker images"@,
        }
    }

    /// The panel's name in the menu and on its tab.
    pub fn title(&self) -> (r: &'static str)
        ensures
            r@ == self.spec_title(),
    {
        match self {
            PanelId::Cpu => "CPU",
            PanelId::Memory => "Memory",
            PanelId::Processes => "Processes",
            PanelId::SelectedProcess => "Selected Process",
            PanelId::Network => "Network",
            PanelId::DiskIo => "Disk I/O",
            PanelId::Dashboard => "Dashboard",
            PanelId::Settings => "Sysinfo Settings",
            PanelId::Temperature => "Temperatures",
            PanelId::TemperatureChart => "Temperature Chart",
            PanelId::Containers => "Containers",
            PanelId::Images => "Images",
        }
    }

    /// The line that describes the panel in the menu.
    pub fn description(&self) -> (r: &'static str)
        ensures
            r@ == self.spec_description(),
    {
        match self {
            PanelId::Cpu => "Shows CPU usage",
            PanelId::Memory => "Shows memory usage",
            PanelId::Processes => "Shows process information",
            PanelId::SelectedProcess => "Shows details for a selected process",
            PanelId::Network => "Shows network I/O usage",
            PanelId::DiskIo => "Shows disk I/O usage",
            PanelId::Dashboard => "Shows all graphs in a responsive grid",
            PanelId::Settings => "Configure sysinfo backend settings",
            PanelId::Temperature => "Shows component temperatures",
            PanelId::TemperatureChart => "Shows temperature history chart",
            PanelId::Containers => "Lists running containers",
            PanelId::Images => "Lists docker images",
        }
    }
}

} // verus!
