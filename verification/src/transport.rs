//! Versioned JSON Lines protocol pieces: the remote launch command, the
//! handshake check and the newline framing of messages.
use vstd::prelude::*;
use vstd::string::{StrSliceExecFns, StringExecFns};

use crate::text::same_text;

verus! {

broadcast use vstd::string::group_string_axioms;

/// Why a remote executable path was refused.
#[derive(Debug, Clone, Copy, PartialEq, Eq, Structural)]
pub enum RemoteCommandError {
    /// The path is empty or holds a NUL, line feed or carriage return.
    EmptyOrLineBreak,
    /// The path is `~/` with nothing after it.
    EmptyHomePath,
}

impl RemoteCommandError {
    pub fn message(&self) -> (r: &'static str)
        ensures
            r@ == (match self {
                RemoteCommandError::EmptyOrLineBreak => "Remote executable path must not be empty or contain a line break"@,
                RemoteCommandError::EmptyHomePath => "Remote executable path after ~/ must not be empty"@,
            }),
    {
        match self {
            RemoteCommandError::EmptyOrLineBreak => {
                "Remote executable path must not be empty or contain a line break"
            },
            RemoteCommandError::EmptyHomePath => "Remote executable path after ~/ must not be empty",
        }
    }
}

/// Characters that may not appear in a remote executable path.
pub open spec fn is_forbidden(c: char) -> bool {
    c == '\0' || c == '\n' || c == '\r'
}

pub open spec fn has_forbidden(s: Seq<char>) -> bool {
    exists|i: int| 0 <= i < s.len() && is_forbidden(#[trigger] s[i])
}

/// What one character becomes inside single quotes: a quote closes the quoted
/// text, adds a double-quoted quote and reopens it.
pub open spec fn quoted_char(c: char) -> Seq<char> {
    if c == '\'' {
        seq!['\'', '"', '\'', '"', '\'']
    } else {
        seq![c]
    }
}

pub open spec fn escape_quotes(s: Seq<char>) -> Seq<char>
    decreases s.len(),
{
    if s.len() == 0 {
        seq![]
    } else {
        escape_quotes(s.drop_last()) + quoted_char(s.last())
    }
}

/// `s` as one single-quoted shell word.
pub open spec fn shell_quote(s: Seq<char>) -> Seq<char> {
    seq!['\''] + escape_quotes(s) + seq!['\'']
}

pub open spec fn home_prefix() -> Seq<char> {
    seq!['~', '/']
}

pub open spec fn exec_prefix() -> Seq<char> {
    seq!['e', 'x', 'e', 'c', ' ']
}

pub open spec fn home_variable() -> Seq<char> {
    seq!['"', '$', 'H', 'O', 'M', 'E', '"', '/']
}

pub open spec fn backend_suffix() -> Seq<char> {
    seq![' ', 'b', 'a', 'c', 'k', 'e', 'n', 'd', ' ', '-', '-', 's', 't', 'd', 'i', 'o']
}

/// The shell command that starts an attached backend from `binary`. Only a
/// leading `~/` is left to the shell (as `"$HOME"/`); everything else is quoted,
/// so the path cannot add shell syntax or change the protocol command.
pub open spec fn spec_remote_command(binary: Seq<char>) -> Result<Seq<char>, RemoteCommandError> {
    if binary.len() == 0 || has_forbidden(binary) {
        Err(RemoteCommandError::EmptyOrLineBreak)
    } else if binary.len() >= 2 && binary.take(2) == home_prefix() {
        let path = binary.skip(2);
        if path.len() == 0 {
            Err(RemoteCommandError::EmptyHomePath)
        } else {
            Ok(exec_prefix() + home_variable() + shell_quote(path) + backend_suffix())
        }
    } else {
        Ok(exec_prefix() + shell_quote(binary) + backend_suffix())
    }
}

/// Appends `s` (from character `from` on) as a single-quoted shell word.
fn append_quoted(out: &mut String, s: &str, from: usize)
    requires
        from <= s@.len(),
    ensures
        final(out)@ == old(out)@ + shell_quote(s@.skip(from as int)),
{
    proof {
        reveal_strlit("'");
        reveal_strlit("'\"'\"'");
    }
    let n = s.unicode_len();
    out.append("'");
    let mut i = from;
    while i < n
        invariant
            from <= i <= n,
            n == s@.len(),
            out@ == old(out)@ + seq!['\''] + escape_quotes(s@.subrange(from as int, i as int)),
        decreases n - i,
    {
        let c = s.get_char(i);
        let ghost before = out@;
        if c == '\'' {
            out.append("'\"'\"'");
            proof {
                reveal_strlit("'\"'\"'");
            }
            assert("'\"'\"'"@ =~= quoted_char(c));
        } else {
            let piece = s.substring_char(i, i + 1);
            assert(piece@ =~= quoted_char(c));
            out.append(piece);
        }
        proof {
            let t = s@.subrange(from as int, i + 1);
            assert(t.drop_last() =~= s@.subrange(from as int, i as int));
            assert(t.last() == c);
            assert(escape_quotes(t) == escape_quotes(t.drop_last()) + quoted_char(c));
            assert(out@ =~= old(out)@ + seq!['\''] + escape_quotes(t));
        }
        i = i + 1;
    }
    out.append("'");
    proof {
        assert(s@.subrange(from as int, n as int) =~= s@.skip(from as int));
    }
}

/// Whether `host` can be handed to `ssh` as its destination: it must not be
/// empty, and must not start with `-`, which `ssh` would read as an option.
pub fn is_valid_ssh_destination(host: &str) -> (r: bool)
    ensures
        r == (host@.len() > 0 && host@[0] != '-'),
{
    if host.unicode_len() == 0 {
        return false;
    }
    host.get_char(0) != '-'
}

/// Builds the command that runs the backend on the remote side, or says why the
/// executable path is refused.
pub fn remote_command(binary: &str) -> (r: Result<String, RemoteCommandError>)
    ensures
        match (r, spec_remote_command(binary@)) {
            (Ok(cmd), Ok(expected)) => cmd@ == expected,
            (Err(e), Err(expected)) => e == expected,
            _ => false,
        },
{
    proof {
        reveal_strlit("exec ");
        reveal_strlit("\"$HOME\"/");
        reveal_strlit(" backend --stdio");
    }
    let n = binary.unicode_len();
    if n == 0 {
        return Err(RemoteCommandError::EmptyOrLineBreak);
    }
    let mut i: usize = 0;
    while i < n
        invariant
            i <= n,
            n == binary@.len(),
            forall|j: int| 0 <= j < i ==> !is_forbidden(#[trigger] binary@[j]),
        decreases n - i,
    {
        let c = binary.get_char(i);
        if c == '\0' || c == '\n' || c == '\r' {
            return Err(RemoteCommandError::EmptyOrLineBreak);
        }
        i = i + 1;
    }
    let mut out = String::new();
    out.append("exec ");
    if n >= 2 && binary.get_char(0) == '~' && binary.get_char(1) == '/' {
        proof {
            assert(binary@.take(2) =~= home_prefix());
        }
        if n == 2 {
            return Err(RemoteCommandError::EmptyHomePath);
        }
        out.append("\"$HOME\"/");
        append_quoted(&mut out, binary, 2);
    } else {
        proof {
            if binary@.len() >= 2 && binary@.take(2) == home_prefix() {
                assert(binary@.take(2)[0] == binary@[0]);
                assert(binary@.take(2)[1] == binary@[1]);
            }
            assert(binary@.skip(0) =~= binary@);
        }
        append_quoted(&mut out, binary, 0);
    }
    out.append(" backend --stdio");
    Ok(out)
}

/// Protocol version spoken by this build.
pub const VERSION: u32 = 1;

/// Largest frame, newline included (32 MiB).
pub const MAX_FRAME: usize = 33554432;

/// The greeting both ends send first.
#[derive(Debug)]
pub struct Hello {
    pub protocol: String,
    pub version: u32,
}

pub open spec fn protocol_name() -> Seq<char> {
    seq!['b', 'i', 'r', 'b', '-', 'm', 'o', 'n', 'i', 't', 'o', 'r']
}

impl Hello {
    /// The greeting of this build.
    pub fn ours() -> (r: Hello)
        ensures
            r.protocol@ == protocol_name(),
            r.version == VERSION,
    {
        proof {
            reveal_strlit("birb-monitor");
            assert("birb-monitor"@ =~= protocol_name());
        }
        Hello { protocol: String::from_str("birb-monitor"), version: VERSION }
    }
}

/// Why the peer's greeting was refused.
#[derive(Debug, Clone, Copy, PartialEq, Eq, Structural)]
pub enum HandshakeError {
    /// The peer closed the stream before greeting.
    Closed,
    /// The peer speaks another protocol or version.
    Incompatible,
}

/// Accepts the peer's greeting exactly when it names this protocol and version.
pub fn check_hello(peer: &Hello) -> (r: Result<(), HandshakeError>)
    ensures
        r is Ok <==> (peer.protocol@ == protocol_name() && peer.version == VERSION),
        r is Err ==> r matches Err(HandshakeError::Incompatible),
{
    proof {
        reveal_strlit("birb-monitor");
        assert("birb-monitor"@ =~= protocol_name());
    }
    if !same_text(peer.protocol.as_str(), "birb-monitor") || peer.version != VERSION {
        Err(HandshakeError::Incompatible)
    } else {
        Ok(())
    }
}

/// Why a frame could not be read or written.
#[derive(Debug, Clone, Copy, PartialEq, Eq, Structural)]
pub enum FrameError {
    /// The frame would exceed [`MAX_FRAME`] bytes.
    Oversized,
    /// The input ended inside a frame.
    Truncated,
}

impl FrameError {
    pub fn message(&self) -> (r: &'static str)
        ensures
            r@ == (match self {
                FrameError::Oversized => "Protocol frame exceeds 32 MiB"@,
                FrameError::Truncated => "Truncated protocol frame"@,
            }),
    {
        match self {
            FrameError::Oversized => "Protocol frame exceeds 32 MiB",
            FrameError::Truncated => "Truncated protocol frame",
        }
    }
}

pub open spec fn newline() -> u8 {
    10u8
}

/// Index of the first newline in `s`, if any.
pub open spec fn first_newline(s: Seq<u8>) -> Option<int> {
    if exists|i: int| 0 <= i < s.len() && s[i] == newline() {
        Some(
            choose|i: int|
                0 <= i < s.len() && s[i] == newline() && forall|j: int|
                    0 <= j < i ==> s[j] != newline(),
        )
    } else {
        None
    }
}

/// How many buffered bytes belong to the current frame: up to and including the
/// first newline, or all of them.
pub open spec fn frame_take(s: Seq<u8>) -> nat {
    match first_newline(s) {
        Some(i) => (i + 1) as nat,
        None => s.len(),
    }
}

/// What reading one buffered chunk did.
#[derive(Debug, Clone, Copy, PartialEq, Eq, Structural)]
pub struct FrameProgress {
    /// Bytes of the chunk that were taken into the frame.
    pub consumed: usize,
    /// Whether the frame is now complete (it ends with a newline).
    pub complete: bool,
}

/// Frames are newline-terminated; a frame accumulates across buffered chunks.
pub struct FrameReader {
    frame: Vec<u8>,
}

impl FrameReader {
    pub closed spec fn pending(&self) -> Seq<u8> {
        self.frame@
    }

    pub fn new() -> (r: FrameReader)
        ensures
            r.pending().len() == 0,
    {
        FrameReader { frame: Vec::new() }
    }

    /// Takes bytes of the next buffered chunk into the frame, up to and including the
    /// first newline. Refuses (taking nothing) when the frame would exceed [`MAX_FRAME`].
    pub fn feed(&mut self, chunk: &[u8]) -> (r: Result<FrameProgress, FrameError>)
        requires
            old(self).pending().len() <= MAX_FRAME,
        ensures
            final(self).pending().len() <= MAX_FRAME,
            match r {
                Ok(p) => {
                    &&& old(self).pending().len() + frame_take(chunk@) <= MAX_FRAME
                    &&& p.consumed == frame_take(chunk@)
                    &&& p.complete == (first_newline(chunk@) is Some)
                    &&& final(self).pending() == old(self).pending() + chunk@.take(p.consumed as int)
                },
                Err(e) => {
                    &&& e == FrameError::Oversized
                    &&& old(self).pending().len() + frame_take(chunk@) > MAX_FRAME
                    &&& final(self).pending() == old(self).pending()
                },
            },
    {
        let n = chunk.len();
        let mut end: usize = 0;
        while end < n && chunk[end] != 10u8
            invariant
                end <= n,
                n == chunk@.len(),
                forall|j: int| 0 <= j < end ==> chunk@[j] != newline(),
            decreases n - end,
        {
            end = end + 1;
        }
        let found = end < n;
        proof {
            if found {
                assert(chunk@[end as int] == newline());
                assert(first_newline(chunk@) == Some(end as int)) by {
                    let w = first_newline(chunk@)->0;
                    assert(0 <= w < chunk@.len() && chunk@[w] == newline());
                    if w < end {
                    } else if w > end {
                        assert(chunk@[end as int] != newline());
                    }
                }
            } else {
                assert(first_newline(chunk@) is None);
            }
        }
        let count = if found {
            end + 1
        } else {
            n
        };
        if count > MAX_FRAME - self.frame.len() {
            return Err(FrameError::Oversized);
        }
        let mut i: usize = 0;
        let ghost start = self.frame@;
        while i < count
            invariant
                i <= count,
                count <= n,
                n == chunk@.len(),
                self.frame@ == start + chunk@.take(i as int),
            decreases count - i,
        {
            self.frame.push(chunk[i]);
            i = i + 1;
            assert(self.frame@ =~= start + chunk@.take(i as int));
        }
        Ok(FrameProgress { consumed: count, complete: found })
    }

    /// Hands out the completed frame and starts the next one.
    pub fn take_frame(&mut self) -> (r: Vec<u8>)
        ensures
            r@ == old(self).pending(),
            final(self).pending().len() == 0,
    {
        let mut frame = Vec::new();
        std::mem::swap(&mut frame, &mut self.frame);
        frame
    }

    /// At the end of the input: a clean end between frames, or a truncated frame.
    pub fn finish(&self) -> (r: Result<(), FrameError>)
        ensures
            r is Ok <==> self.pending().len() == 0,
            r is Err ==> r == Err::<(), FrameError>(FrameError::Truncated),
    {
        if self.frame.len() == 0 {
            Ok(())
        } else {
            Err(FrameError::Truncated)
        }
    }
}

/// Terminates an encoded message with a newline, refusing messages that would
/// exceed [`MAX_FRAME`].
pub fn encode_frame(payload: Vec<u8>) -> (r: Result<Vec<u8>, FrameError>)
    ensures
        match r {
            Ok(frame) => payload@.len() + 1 <= MAX_FRAME && frame@ == payload@.push(newline()),
            Err(e) => payload@.len() + 1 > MAX_FRAME && e == FrameError::Oversized,
        },
{
    if payload.len() >= MAX_FRAME {
        return Err(FrameError::Oversized);
    }
    let mut frame = payload;
    frame.push(10u8);
    Ok(frame)
}

/// A frame written by [`encode_frame`] is read back whole: its only newline is
/// its last byte; fed to an empty reader in one chunk together with whatever
/// follows it, the reader takes exactly the frame's bytes, reports it complete
/// and holds the payload plus its newline. Cut short before its newline, the
/// frame is taken whole and not complete, so the reader is left holding it
/// and [`FrameReader::finish`] reports it truncated. This holds whenever the
/// payload has no raw newline (JSON escapes newlines inside strings, so a
/// message whose text holds newlines still makes one line).
pub proof fn lemma_frame_round_trip(payload: Seq<u8>, rest: Seq<u8>)
    requires
        forall|i: int| 0 <= i < payload.len() ==> payload[i] != newline(),
        payload.len() + 1 <= MAX_FRAME,
    ensures
        ({
            let chunk = payload.push(newline()) + rest;
            &&& first_newline(chunk) == Some(payload.len() as int)
            &&& frame_take(chunk) == payload.len() + 1
            &&& chunk.take(frame_take(chunk) as int) == payload.push(newline())
        }),
        forall|i: int|
            0 <= i <= payload.len() && #[trigger] payload.push(newline())[i] == newline() ==> i
                == payload.len(),
        first_newline(payload) is None,
        frame_take(payload) == payload.len(),
{
    assert forall|i: int|
        0 <= i <= payload.len() && #[trigger] payload.push(newline())[i] == newline() implies i
        == payload.len() by {
        if i < payload.len() {
            assert(payload.push(newline())[i] == payload[i]);
        }
    }
    let chunk = payload.push(newline()) + rest;
    let n = payload.len() as int;
    assert(chunk[n] == newline());
    let w = first_newline(chunk)->0;
    assert(0 <= w < chunk.len() && chunk[w] == newline());
    if w < n {
        assert(chunk[w] == payload[w]);
    } else if w > n {
        assert(chunk[n] != newline());
    }
    assert(chunk.take(n + 1) =~= payload.push(newline()));
}

} // verus!
