//! Recurring break timers: the timer state machine and the activity
//! policy, the messages between the daemon and its clients, and their
//! frames on the socket.

pub mod activity;
pub mod cli;
pub mod config;
pub mod daemon;
pub mod display;
pub mod input_listener;
pub mod mmss;
pub mod msg;
pub mod policy;
pub mod socket;
pub mod text;
pub mod time;
pub mod timer;
pub mod timer_laws;
pub mod wire;

use vstd::prelude::*;
use vstd::string::{StrSliceExecFns, StringExecFns};

verus! {

/// The name of the application, and of its directories.
pub const APP_NAME: &'static str = "movebeam";

/// The name of the timer daemon.
pub const DAEMON_NAME: &'static str = "moved";

/// The name of the activity daemon.
pub const ACTIVITY_DAEMON_NAME: &'static str = "actived";

/// A path with one more part: the part follows a `/`, which is left out
/// where the path is empty or ends with one already.
pub open spec fn joined(base: Seq<char>, part: Seq<char>) -> Seq<char> {
    if base.len() == 0 || base.last() == '/' {
        base + part
    } else {
        base + seq!['/'] + part
    }
}

/// The file `name` with the extension `extension` in the application's
/// directory under `dir`.
pub open spec fn app_file(dir: Seq<char>, name: Seq<char>, extension: Seq<char>) -> Seq<char> {
    joined(joined(dir, APP_NAME@), name) + seq!['.'] + extension
}

/// `dirs::runtime_dir`: the user's runtime directory as the environment
/// gives it, and nothing where it gives none or one that is no UTF-8.
#[verifier::external_body]
fn runtime_dir() -> Option<String> {
    match dirs::runtime_dir() {
        Some(dir) => dir.into_os_string().into_string().ok(),
        None => None,
    }
}

/// `dirs::config_dir`: the user's configuration directory as the
/// environment gives it, and nothing where it gives none or one that is
/// no UTF-8.
#[verifier::external_body]
fn config_dir() -> Option<String> {
    match dirs::config_dir() {
        Some(dir) => dir.into_os_string().into_string().ok(),
        None => None,
    }
}

/// Adds a part to a path.
fn join(base: String, part: &str) -> (path: String)
    ensures
        path@ == joined(base@, part@),
{
    let mut path = base;
    let len = path.as_str().unicode_len();
    if len > 0 && path.as_str().get_char(len - 1) != '/' {
        path.append("/");
        proof {
            reveal_strlit("/");
        }
    }
    path.append(part);
    assert(path@ =~= joined(base@, part@));
    path
}

/// The file `name` with the extension `extension` in the application's
/// directory under `dir`.
pub fn app_file_in(dir: &str, name: &str, extension: &str) -> (path: String)
    ensures
        path@ == app_file(dir@, name@, extension@),
{
    let mut path = join(join(String::from_str(dir), APP_NAME), name);
    path.append(".");
    proof {
        reveal_strlit(".");
    }
    path.append(extension);
    assert(path@ =~= app_file(dir@, name@, extension@));
    path
}

/// The socket of the timer daemon, in the user's runtime directory. There
/// is none where the environment names no such directory.
pub fn daemon_socket() -> (r: Option<String>)
    ensures
        r matches Some(path) ==> exists|dir: Seq<char>| path@ == app_file(dir, DAEMON_NAME@, "sock"@),
{
    // Whether there is a runtime directory is for the environment to say.
    let dir = runtime_dir();
    let path = app_file_under(dir, DAEMON_NAME, "sock");
    path
}

/// The socket of the activity daemon.
pub fn activity_daemon_socket() -> (path: String)
    ensures
        path@ == app_file("/run"@, ACTIVITY_DAEMON_NAME@, "sock"@),
        path@ == "/run/movebeam/actived.sock"@,
{
    proof {
        reveal_strlit("/run");
        reveal_strlit("movebeam");
        reveal_strlit("actived");
        reveal_strlit("sock");
        reveal_strlit("/run/movebeam/actived.sock");
        assert(app_file("/run"@, ACTIVITY_DAEMON_NAME@, "sock"@) =~= "/run/movebeam/actived.sock"@);
    }
    app_file_in("/run", ACTIVITY_DAEMON_NAME, "sock")
}

/// The user's configuration file. There is none where the environment
/// names no configuration directory.
pub fn config_path() -> (r: Option<String>)
    ensures
        r matches Some(path) ==> exists|dir: Seq<char>| path@ == app_file(dir, APP_NAME@, "toml"@),
{
    // Whether there is a configuration directory is for the environment to say.
    let dir = config_dir();
    let path = app_file_under(dir, APP_NAME, "toml");
    path
}

/// The file `name` with the extension `extension` in the application's
/// directory under `dir`; there is no such file where there is no `dir`.
pub fn app_file_under(dir: Option<String>, name: &str, extension: &str) -> (r: Option<String>)
    ensures
        r is Some <==> dir is Some,
        r matches Some(path) ==> dir matches Some(d) && path@ == app_file(d@, name@, extension@),
{
    match dir {
        Some(dir) => Some(app_file_in(dir.as_str(), name, extension)),
        None => None,
    }
}

} // verus!
