//! Command-line interface: what to run, and how a detached GUI is relaunched.
use vstd::prelude::*;
use vstd::string::StringExecFns;

verus! {

/// Birb System Monitor: a cross-platform system monitoring tool with a focus on
/// aesthetics and usability. Without a command it runs `gui --detach`.
#[derive(Debug)]
pub struct Cli {
    pub command: Option<Command>,
}

#[derive(Debug)]
pub enum Command {
    Gui(Gui),
    /// Run an attached backend using versioned JSON Lines on stdin/stdout.
    Backend { stdio: bool },
}

/// Options of the GUI.
#[derive(Debug)]
pub struct Gui {
    pub detach: bool,
    /// Read from birb-monitor on an SSH host (uses local SSH config and keys).
    pub ssh: Option<String>,
    /// Remote birb-monitor executable; accepts an absolute path or `~/...`.
    pub ssh_bin: String,
}

pub open spec fn default_ssh_bin() -> Seq<char> {
    "birb-monitor"@
}

pub open spec fn opt_view(s: Option<String>) -> Option<Seq<char>> {
    match s {
        Some(v) => Some(v@),
        None => None,
    }
}

/// The content of a command, with strings taken by their characters.
pub enum CommandView {
    Gui { detach: bool, ssh: Option<Seq<char>>, ssh_bin: Seq<char> },
    Backend { stdio: bool },
}

impl Command {
    pub open spec fn view(&self) -> CommandView {
        match self {
            Command::Gui(g) => CommandView::Gui { detach: g.detach, ssh: opt_view(g.ssh), ssh_bin: g.ssh_bin@ },
            Command::Backend { stdio } => CommandView::Backend { stdio: *stdio },
        }
    }
}

fn copy_opt(s: &Option<String>) -> (r: Option<String>)
    ensures
        opt_view(r) == opt_view(*s),
{
    match s {
        Some(v) => Some(String::from_str(v.as_str())),
        None => None,
    }
}

impl Cli {
    /// The command to run: the one given, else a detached local GUI.
    pub fn command(&self) -> (r: Command)
        ensures
            r.view() == match self.command {
                Some(c) => c.view(),
                None => CommandView::Gui { detach: true, ssh: None, ssh_bin: default_ssh_bin() },
            },
    {
        match &self.command {
            Some(Command::Gui(g)) => Command::Gui(
                Gui {
                    detach: g.detach,
                    ssh: copy_opt(&g.ssh),
                    ssh_bin: String::from_str(g.ssh_bin.as_str()),
                },
            ),
            Some(Command::Backend { stdio }) => Command::Backend { stdio: *stdio },
            None => Command::Gui(
                Gui { detach: true, ssh: None, ssh_bin: String::from_str("birb-monitor") },
            ),
        }
    }
}

/// The arguments a detached GUI relaunches itself with: `gui`, and the SSH host
/// and executable when reading from a remote host.
pub open spec fn spec_detached_args(ssh: Option<Seq<char>>, ssh_bin: Seq<char>) -> Seq<Seq<char>> {
    match ssh {
        Some(host) => seq!["gui"@, "--ssh"@, host, "--ssh-bin"@, ssh_bin],
        None => seq!["gui"@],
    }
}

impl Gui {
    pub fn detached_args(&self) -> (r: Vec<String>)
        ensures
            r@.map_values(|s: String| s@) == spec_detached_args(opt_view(self.ssh), self.ssh_bin@),
    {
        let mut args: Vec<String> = Vec::new();
        args.push(String::from_str("gui"));
        match &self.ssh {
            Some(host) => {
                args.push(String::from_str("--ssh"));
                args.push(String::from_str(host.as_str()));
                args.push(String::from_str("--ssh-bin"));
                args.push(String::from_str(self.ssh_bin.as_str()));
            },
            None => {},
        }
        assert(args@.map_values(|s: String| s@) =~= spec_detached_args(opt_view(self.ssh), self.ssh_bin@));
        args
    }
}

/// What running a command does.
#[derive(Debug)]
pub enum Launch {
    /// Open the window in this process, reading from the SSH host if given.
    Window { ssh: Option<String>, ssh_bin: String },
    /// Start this executable again with these arguments and return at once.
    Relaunch(Vec<String>),
    /// Serve an attached frontend over stdin and stdout.
    ServeStdio,
}

/// The content of a launch, with strings taken by their characters.
pub enum LaunchView {
    Window { ssh: Option<Seq<char>>, ssh_bin: Seq<char> },
    Relaunch(Seq<Seq<char>>),
    ServeStdio,
}

impl Launch {
    pub open spec fn view(&self) -> LaunchView {
        match self {
            Launch::Window { ssh, ssh_bin } => LaunchView::Window { ssh: opt_view(*ssh), ssh_bin: ssh_bin@ },
            Launch::Relaunch(args) => LaunchView::Relaunch(args@.map_values(|s: String| s@)),
            Launch::ServeStdio => LaunchView::ServeStdio,
        }
    }
}

/// What running a command with this content does: an attached GUI opens its
/// window, a detached one relaunches the executable with `gui` and the SSH
/// options, and the backend serves stdin/stdout.
pub open spec fn spec_launch(c: CommandView) -> LaunchView {
    match c {
        CommandView::Gui { detach, ssh, ssh_bin } => if detach {
            LaunchView::Relaunch(spec_detached_args(ssh, ssh_bin))
        } else {
            LaunchView::Window { ssh, ssh_bin }
        },
        CommandView::Backend { .. } => LaunchView::ServeStdio,
    }
}

impl Command {
    /// What running this command does: the action the program carries out.
    pub fn run(&self) -> (r: Launch)
        ensures
            r.view() == spec_launch(self.view()),
    {
        match self {
            Command::Gui(gui) => {
                if gui.detach {
                    Launch::Relaunch(gui.detached_args())
                } else {
                    Launch::Window {
                        ssh: copy_opt(&gui.ssh),
                        ssh_bin: String::from_str(gui.ssh_bin.as_str()),
                    }
                }
            },
            Command::Backend { .. } => Launch::ServeStdio,
        }
    }
}

} // verus!
