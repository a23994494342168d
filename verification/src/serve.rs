//! The decisions behind `burrower serve`, the line-delimited JSON service
//! on a Unix domain socket: which command a request names, the defaults of
//! its arguments, and when the listener may remove its socket file. The
//! host program does the socket and JSON work.
use crate::text::{append_str, chars_of, str_eq, string_from, string_of};
use vstd::prelude::*;

verus! {

/// The commands a request can name.
#[derive(Clone, Copy, PartialEq, Eq, Structural, Debug)]
pub enum Command {
    Swarm,
    Attempt,
    Ledger,
    Ping,
}

/// The command named `cmd`, if any.
pub open spec fn command_named(cmd: Seq<char>) -> Option<Command> {
    if cmd == "swarm"@ {
        Some(Command::Swarm)
    } else if cmd == "attempt"@ {
        Some(Command::Attempt)
    } else if cmd == "ledger"@ {
        Some(Command::Ledger)
    } else if cmd == "ping"@ {
        Some(Command::Ping)
    } else {
        None
    }
}

/// The error answered for a request naming an unknown command.
pub open spec fn unknown_command_text(cmd: Seq<char>) -> Seq<char> {
    "unknown cmd: "@ + cmd + " (expected: swarm | attempt | ledger | ping)"@
}

/// The command a request names, or the error answered for an unknown one.
pub fn parse_command(cmd: &str) -> (r: Result<Command, String>)
    ensures
        match r {
            Ok(c) => command_named(cmd@) == Some(c),
            Err(e) => command_named(cmd@) is None && e@ == unknown_command_text(cmd@),
        },
{
    if str_eq(cmd, "swarm") {
        Ok(Command::Swarm)
    } else if str_eq(cmd, "attempt") {
        Ok(Command::Attempt)
    } else if str_eq(cmd, "ledger") {
        Ok(Command::Ledger)
    } else if str_eq(cmd, "ping") {
        Ok(Command::Ping)
    } else {
        let mut out = chars_of("unknown cmd: ");
        append_str(&mut out, cmd);
        append_str(&mut out, " (expected: swarm | attempt | ledger | ping)");
        Err(string_of(&out))
    }
}

/// The error answered for a request line that is not a request; `detail`
/// is the JSON parser's message.
pub fn malformed_request(detail: &str) -> (r: String)
    ensures
        r@ == "malformed request: "@ + detail@,
{
    let mut out = chars_of("malformed request: ");
    append_str(&mut out, detail);
    string_of(&out)
}

/// The default number of homes per specialist for `swarm`.
pub fn default_top() -> (r: usize)
    ensures
        r == 5,
{
    5
}

/// The default per-attempt timeout in seconds for `attempt`.
pub fn default_timeout() -> (r: u32)
    ensures
        r == 60,
{
    60
}

/// The default number of records for `ledger`.
pub fn default_limit() -> (r: usize)
    ensures
        r == 10,
{
    10
}

/// The socket a listener bound: its path and the identity (device and
/// inode) of the socket file it created.
pub struct SocketGuard {
    path: String,
    device: u64,
    inode: u64,
}

impl SocketGuard {
    /// The guard of the socket file created at `path` with the given device
    /// and inode.
    pub fn new(path: &str, device: u64, inode: u64) -> (r: Self)
        ensures
            r.path_view() == path@,
            r.device_of() == device,
            r.inode_of() == inode,
    {
        SocketGuard { path: string_from(path), device, inode }
    }

    /// The socket path.
    pub closed spec fn path_view(&self) -> Seq<char> {
        self.path@
    }

    /// The device of the socket file.
    pub closed spec fn device_of(&self) -> u64 {
        self.device
    }

    /// The inode of the socket file.
    pub closed spec fn inode_of(&self) -> u64 {
        self.inode
    }

    /// The socket path.
    pub fn path(&self) -> (r: &str)
        ensures
            r@ == self.path_view(),
    {
        self.path.as_str()
    }

    /// Whether the file now at the path may be removed when the listener
    /// stops: only when it is a socket with the device and inode of the one
    /// the listener created. A regular file, a symlink, or a socket that
    /// replaced ours is left alone.
    pub fn may_unlink(&self, is_socket: bool, device: u64, inode: u64) -> (r: bool)
        ensures
            r == (is_socket && device == self.device_of() && inode == self.inode_of()),
    {
        is_socket && device == self.device && inode == self.inode
    }
}

} // verus!
