//! The calls this library makes into the operating system and std, each behind a contract.

use crate::process::Signal;
use crate::tree::pids_distinct;
use sysinfo::{PidExt, ProcessExt, SystemExt};
use vstd::prelude::*;

verus! {

/// The process table reader of the `sysinfo` crate, carried through opaquely.
#[verifier::external_type_specification]
#[verifier::external_body]
pub struct ExSystem(sysinfo::System);

/// Relies on `sysinfo::System::new`: a reader holding no process information yet.
#[verifier::external_body]
pub(crate) fn new_system() -> sysinfo::System {
    sysinfo::System::new()
}

/// Relies on `sysinfo::SystemExt::refresh_processes`: reads the live process table.
/// What it finds depends on the machine at that instant, so nothing is promised of it.
#[verifier::external_body]
pub(crate) fn refresh_processes(sys: &mut sysinfo::System) {
    sys.refresh_processes()
}

/// Relies on `sysinfo::SystemExt::processes` and `sysinfo::ProcessExt::parent`: one
/// `(pid, parent)` row for each process of the last refresh, in the map's order. The rows
/// come from the keys of a `HashMap<Pid, Process>`, and `Pid::as_u32` is a plain cast of
/// the pid, so no pid is listed twice.
#[verifier::external_body]
pub(crate) fn process_rows(sys: &sysinfo::System) -> (r: Vec<(u32, Option<u32>)>)
    ensures
        pids_distinct(r@),
{
    sys.processes().iter().map(|(pid, p)| (pid.as_u32(), p.parent().map(|q| q.as_u32()))).collect()
}

/// Relies on `nix::sys::signal::kill`: sends `signal` to the single process `pid`, and
/// reports whether it was delivered. A pid of zero or above `i32::MAX` would name a
/// process group instead, so those are excluded.
#[verifier::external_body]
pub(crate) fn send_signal(pid: u32, signal: Signal) -> (delivered: bool)
    requires
        0 < pid <= i32::MAX,
{
    let sig = match signal {
        Signal::SIGHUP => nix::sys::signal::Signal::SIGHUP,
        Signal::SIGINT => nix::sys::signal::Signal::SIGINT,
        Signal::SIGQUIT => nix::sys::signal::Signal::SIGQUIT,
        Signal::SIGKILL => nix::sys::signal::Signal::SIGKILL,
        Signal::SIGUSR1 => nix::sys::signal::Signal::SIGUSR1,
        Signal::SIGUSR2 => nix::sys::signal::Signal::SIGUSR2,
        Signal::SIGTERM => nix::sys::signal::Signal::SIGTERM,
        Signal::SIGCONT => nix::sys::signal::Signal::SIGCONT,
        Signal::SIGSTOP => nix::sys::signal::Signal::SIGSTOP,
    };
    nix::sys::signal::kill(nix::unistd::Pid::from_raw(pid as i32), sig).is_ok()
}

} // verus!
