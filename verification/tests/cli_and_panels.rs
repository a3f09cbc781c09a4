use birb_monitor::cli::{Cli, Command, Gui, Launch};
use birb_monitor::gui::backend::debug::DebugBackend;
use birb_monitor::gui::panels::{panels, Domain, PanelId};
use birb_monitor::gui::backend::sysinfo::temperature_chart::{line_color, SensorSelection};
use birb_monitor::gui::save::{format_for_extension, ProfileFormat};
use birb_monitor::gui::widgets::{random_sentence, SENTENCES};

fn gui(detach: bool, ssh: Option<&str>, ssh_bin: &str) -> Gui {
    Gui { detach, ssh: ssh.map(|s| s.to_string()), ssh_bin: ssh_bin.to_string() }
}

#[test]
fn default_command_is_a_detached_local_gui() {
    let cli = Cli { command: None };
    match cli.command() {
        Command::Gui(g) => {
            assert!(g.detach);
            assert_eq!(g.ssh, None);
            assert_eq!(g.ssh_bin, "birb-monitor");
        }
        Command::Backend { .. } => panic!("expected the GUI"),
    }
    let given = Cli { command: Some(Command::Backend { stdio: true }) };
    assert!(matches!(given.command(), Command::Backend { stdio: true }));
}

#[test]
fn detached_gui_relaunches_with_its_ssh_options() {
    assert_eq!(gui(true, None, "birb-monitor").detached_args(), vec!["gui".to_string()]);
    assert_eq!(
        gui(true, Some("host"), "~/bin/birb").detached_args(),
        vec!["gui", "--ssh", "host", "--ssh-bin", "~/bin/birb"]
    );
}

#[test]
fn running_a_command() {
    match Command::Gui(gui(true, Some("host"), "birb-monitor")).run() {
        Launch::Relaunch(args) => assert_eq!(args, vec!["gui", "--ssh", "host", "--ssh-bin", "birb-monitor"]),
        other => panic!("unexpected launch {other:?}"),
    }
    match Command::Gui(gui(false, None, "birb-monitor")).run() {
        Launch::Window { ssh, ssh_bin } => {
            assert_eq!(ssh, None);
            assert_eq!(ssh_bin, "birb-monitor");
        }
        other => panic!("unexpected launch {other:?}"),
    }
    assert!(matches!(Command::Backend { stdio: true }.run(), Launch::ServeStdio));
}

#[test]
fn panels_belong_to_their_domain() {
    assert_eq!(PanelId::Containers.domain(), Domain::Docker);
    assert_eq!(PanelId::Images.domain(), Domain::Docker);
    assert_eq!(PanelId::Cpu.domain(), Domain::Sysinfo);
    assert_eq!(PanelId::TemperatureChart.domain(), Domain::Sysinfo);
}

#[test]
fn each_domain_lists_its_panels_in_menu_order() {
    assert_eq!(panels(Domain::Docker), vec![PanelId::Containers, PanelId::Images]);
    let sysinfo = panels(Domain::Sysinfo);
    assert_eq!(sysinfo.len(), 10);
    assert_eq!(sysinfo[0], PanelId::Cpu);
    assert_eq!(sysinfo[9], PanelId::TemperatureChart);
    for domain in [Domain::Sysinfo, Domain::Docker] {
        assert!(panels(domain).iter().all(|p| p.domain() == domain));
    }
    assert_eq!(PanelId::DiskIo.title(), "Disk I/O");
    assert_eq!(PanelId::Settings.title(), "Sysinfo Settings");
    assert_eq!(PanelId::Containers.description(), "Lists running containers");
    assert_eq!(PanelId::Dashboard.description(), "Shows all graphs in a responsive grid");
}

#[test]
fn placeholder_sentences_cycle() {
    assert_eq!(SENTENCES.len(), 35);
    assert_eq!(random_sentence(0), SENTENCES[0]);
    assert_eq!(random_sentence(36), SENTENCES[1]);
    assert_eq!(random_sentence(u64::MAX), SENTENCES[(u64::MAX % 35) as usize]);
}

#[test]
fn profile_format_follows_the_extension() {
    assert_eq!(format_for_extension("json"), Some(ProfileFormat::Json));
    assert_eq!(format_for_extension("yml"), Some(ProfileFormat::Yaml));
    assert_eq!(format_for_extension("yaml"), Some(ProfileFormat::Yaml));
    assert_eq!(format_for_extension("toml"), Some(ProfileFormat::Toml));
    assert_eq!(format_for_extension("hjson"), Some(ProfileFormat::Hjson));
    assert_eq!(format_for_extension("ron"), Some(ProfileFormat::Ron));
    assert_eq!(format_for_extension("txt"), None);
    assert_eq!(format_for_extension(""), None);
}

fn names(labels: &[&str]) -> Vec<String> {
    labels.iter().map(|l| l.to_string()).collect()
}

fn sorted(mut labels: Vec<String>) -> Vec<String> {
    labels.sort();
    labels.dedup();
    labels
}

#[test]
fn sensor_selection_starts_with_every_sensor() {
    let mut selection = SensorSelection::new();
    let latest = names(&["cpu", "gpu", "nvme"]);
    selection.sync(&latest);
    assert_eq!(sorted(selection.enabled.clone()), names(&["cpu", "gpu", "nvme"]));
    assert_eq!(selection.plotted_labels(&latest), latest);
}

#[test]
fn sensor_selection_drops_vanished_sensors() {
    let mut selection = SensorSelection { enabled: names(&["cpu", "gone"]) };
    selection.sync(&names(&["cpu", "gpu"]));
    assert_eq!(sorted(selection.enabled.clone()), names(&["cpu"]));
    assert_eq!(selection.plotted_labels(&names(&["gpu", "cpu", "cpu"])), names(&["cpu", "cpu"]));
}

#[test]
fn unchecking_every_sensor_selects_them_all_again() {
    let available = names(&["cpu", "gpu"]);
    let mut selection = SensorSelection { enabled: names(&["cpu"]) };
    selection.apply_toggles(&vec![("gpu".to_string(), true)], &available);
    assert_eq!(sorted(selection.enabled.clone()), names(&["cpu", "gpu"]));
    selection.apply_toggles(&vec![("cpu".to_string(), false)], &available);
    assert_eq!(sorted(selection.enabled.clone()), names(&["gpu"]));
    selection.apply_toggles(&vec![("gpu".to_string(), false)], &available);
    assert_eq!(sorted(selection.enabled.clone()), names(&["cpu", "gpu"]));
    let before = selection.enabled.clone();
    selection.apply_toggles(&vec![], &available);
    assert_eq!(selection.enabled, before);
}

#[test]
fn chart_lines_cycle_through_the_palette() {
    assert_eq!(line_color(0), (244, 67, 54));
    assert_eq!(line_color(4), (33, 150, 243));
    assert_eq!(line_color(9), (121, 85, 72));
    assert_eq!(line_color(10), line_color(0));
    assert_eq!(line_color(22), (255, 235, 59));
    assert_eq!(line_color(23), (76, 175, 80));
}

#[test]
fn debug_backend_offers_the_widget_gallery() {
    let backend = DebugBackend;
    assert_eq!(backend.name(), "Debug");
    let panels = backend.panels();
    assert_eq!(panels.len(), 1);
    assert_eq!(panels[0].id.0, "widget_gallery");
    assert_eq!(panels[0].title, "Widget Gallery");
    let gallery = backend.new_panel(&panels[0].id);
    assert_eq!(gallery.title(), "Widget Gallery");
    assert!(gallery.text().starts_with("This is a widget gallery panel."));
}
