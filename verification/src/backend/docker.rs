//! Collector-side data for Docker: one sampling cycle per message.
use vstd::prelude::*;
use std::time::SystemTime;
use vstd::string::{StrSliceExecFns, StringExecFns};

use crate::text::{decimal, push_decimal};
use crate::utils::TimedTaskEvent;

verus! {

broadcast use vstd::string::group_string_axioms;

/// Commands accepted by the Docker collector.
#[derive(Debug)]
pub enum DockerCommand {
    Refresh,
    /// Changes the daemon endpoint and immediately samples it.
    SetSocketPath(String),
}

#[derive(Debug)]
pub enum DockerMessage {
    Snapshot(DockerSnapshot),
}

/// Results from one sampling cycle. Failed reads never masquerade as empty lists.
/// The frontend decides whether to retain older data after a failed read.
#[derive(Debug)]
pub struct DockerSnapshot {
    pub captured_at: SystemTime,
    pub socket_path: String,
    pub containers: Result<Vec<SimpleContainer>, String>,
    pub images: Result<Vec<SimpleImage>, String>,
}

#[derive(Debug)]
pub struct SimpleContainer {
    pub id: String,
    pub name: String,
    pub image: String,
    pub status: String,
    pub state: String,
    pub created: i64,
    pub ports: String,
}

#[derive(Debug)]
pub struct SimpleImage {
    pub id: String,
    pub repo_tags: Vec<String>,
    pub created: i64,
    pub size: i64,
}

/// The endpoint a Docker collector samples, and the client it holds for it
/// (`C` is the client type). Creating a client does not establish daemon
/// connectivity; only request results tell whether the daemon responded.
pub struct DockerEndpoint<C> {
    pub socket_path: String,
    pub client: Option<C>,
}

impl<C> DockerEndpoint<C> {
    pub fn new(socket_path: String) -> (r: Self)
        ensures
            r.socket_path == socket_path,
            r.client is None,
    {
        DockerEndpoint { socket_path, client: None }
    }

    /// Applies a handler event and says whether to sample now. A new socket path
    /// replaces the endpoint and drops the client; nothing is sampled once the
    /// output is closed.
    pub fn on_event(&mut self, event: TimedTaskEvent<DockerCommand>, output_closed: bool) -> (r: bool)
        ensures
            r == !output_closed,
            match event {
                TimedTaskEvent::Message(DockerCommand::SetSocketPath(p)) => {
                    &&& final(self).socket_path == p
                    &&& final(self).client is None
                },
                _ => {
                    &&& final(self).socket_path == old(self).socket_path
                    &&& final(self).client == old(self).client
                },
            },
    {
        match event {
            TimedTaskEvent::Tick | TimedTaskEvent::Message(DockerCommand::Refresh) => {},
            TimedTaskEvent::Message(DockerCommand::SetSocketPath(socket_path)) => {
                self.socket_path = socket_path;
                self.client = None;
            },
        }
        !output_closed
    }
}

/// `prefix` followed by `detail`.
fn prefixed(prefix: &str, detail: &str) -> (r: String)
    ensures
        r@ == prefix@ + detail@,
{
    let mut out = String::from_str(prefix);
    out.append(detail);
    out
}

/// The error recorded for both lists when no client could be created.
pub fn client_error(detail: &str) -> (r: String)
    ensures
        r@ == "Failed to create Docker client: "@ + detail@,
{
    prefixed("Failed to create Docker client: ", detail)
}

/// The error recorded when listing containers failed.
pub fn containers_error(detail: &str) -> (r: String)
    ensures
        r@ == "Failed to list containers: "@ + detail@,
{
    prefixed("Failed to list containers: ", detail)
}

/// The error recorded when listing images failed.
pub fn images_error(detail: &str) -> (r: String)
    ensures
        r@ == "Failed to list images: "@ + detail@,
{
    prefixed("Failed to list images: ", detail)
}

/// `s` without its leading slashes.
pub open spec fn trim_leading_slashes(s: Seq<char>) -> Seq<char>
    decreases s.len(),
{
    if s.len() > 0 && s[0] == '/' {
        trim_leading_slashes(s.skip(1))
    } else {
        s
    }
}

/// A container's display name: its first name without leading slashes.
pub open spec fn spec_container_name(names: Option<Seq<String>>) -> Seq<char> {
    match names {
        Some(n) => if n.len() > 0 {
            trim_leading_slashes(n[0]@)
        } else {
            Seq::empty()
        },
        None => Seq::empty(),
    }
}

pub fn container_name(names: &Option<Vec<String>>) -> (r: String)
    ensures
        r@ == spec_container_name(
            match names {
                Some(v) => Some(v@),
                None => None,
            },
        ),
{
    let first: &str = match names {
        Some(v) => {
            if v.len() > 0 {
                v[0].as_str()
            } else {
                ""
            }
        },
        None => "",
    };
    proof {
        reveal_strlit("");
    }
    let n = first.unicode_len();
    let mut i: usize = 0;
    assert(first@.skip(0) =~= first@);
    while i < n && first.get_char(i) == '/'
        invariant
            i <= n,
            n == first@.len(),
            trim_leading_slashes(first@) == trim_leading_slashes(first@.skip(i as int)),
        decreases n - i,
    {
        proof {
            assert(first@.skip(i as int).skip(1) =~= first@.skip(i + 1));
        }
        i = i + 1;
    }
    let rest = first.substring_char(i, n);
    proof {
        assert(rest@ =~= first@.skip(i as int));
    }
    String::from_str(rest)
}

/// One published or exposed port: `ip:public->private/type` when published
/// (ip defaulting to 0.0.0.0), else `private/type`; the type defaults to tcp.
pub open spec fn spec_format_port(
    ip: Option<Seq<char>>,
    public_port: Option<u16>,
    private_port: u16,
    typ: Option<Seq<char>>,
) -> Seq<char> {
    let t = match typ {
        Some(t) => t,
        None => "tcp"@,
    };
    match public_port {
        Some(p) => {
            let a = match ip {
                Some(a) => a,
                None => "0.0.0.0"@,
            };
            a + seq![':'] + decimal(p as nat) + "->"@ + decimal(private_port as nat) + seq!['/'] + t
        },
        None => decimal(private_port as nat) + seq!['/'] + t,
    }
}

pub fn format_port(ip: Option<&str>, public_port: Option<u16>, private_port: u16, typ: Option<&str>) -> (r: String)
    ensures
        r@ == spec_format_port(
            match ip {
                Some(a) => Some(a@),
                None => None,
            },
            public_port,
            private_port,
            match typ {
                Some(t) => Some(t@),
                None => None,
            },
        ),
{
    proof {
        reveal_strlit(":");
        reveal_strlit("/");
    }
    let t = match typ {
        Some(t) => t,
        None => "tcp",
    };
    let mut out = String::new();
    match public_port {
        Some(p) => {
            let a = match ip {
                Some(a) => a,
                None => "0.0.0.0",
            };
            out.append(a);
            out.append(":");
            push_decimal(&mut out, p as u64);
            out.append("->");
            push_decimal(&mut out, private_port as u64);
        },
        None => {
            push_decimal(&mut out, private_port as u64);
        },
    }
    out.append("/");
    out.append(t);
    out
}

/// `parts` joined with `, `.
pub open spec fn join_comma(parts: Seq<Seq<char>>) -> Seq<char>
    decreases parts.len(),
{
    if parts.len() == 0 {
        Seq::empty()
    } else if parts.len() == 1 {
        parts[0]
    } else {
        join_comma(parts.drop_last()) + ", "@ + parts.last()
    }
}

pub open spec fn views(v: Seq<String>) -> Seq<Seq<char>> {
    v.map_values(|s: String| s@)
}

pub fn join_ports(parts: &Vec<String>) -> (r: String)
    ensures
        r@ == join_comma(views(parts@)),
{
    let mut out = String::new();
    let n = parts.len();
    let mut i: usize = 0;
    while i < n
        invariant
            i <= n,
            n == parts@.len(),
            out@ == join_comma(views(parts@.take(i as int))),
        decreases n - i,
    {
        if i > 0 {
            out.append(", ");
        }
        out.append(parts[i].as_str());
        proof {
            let t = views(parts@.take(i + 1));
            assert(t.drop_last() =~= views(parts@.take(i as int)));
            assert(t.last() == parts@[i as int]@);
            if i == 0 {
                assert(out@ =~= t[0]);
            }
        }
        i = i + 1;
    }
    proof {
        assert(parts@.take(n as int) =~= parts@);
    }
    out
}

} // verus!
