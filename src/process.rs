//! Commands, their options and results, and termination of process trees.

use crate::sys;
use crate::tree::{descendants, is_chain, is_child, is_descendant, pids_distinct};
use vstd::prelude::*;

verus! {

/// The pause between two liveness checks while a tree is given time to exit, in milliseconds.
pub const SLEEP_STEP_MS: u64 = 100;

/// A signal to send to a process tree. `SIGTERM` is the graceful termination (the
/// process may catch it), `SIGKILL` the forced one.
#[allow(non_camel_case_types)]
#[derive(Debug, PartialEq, Eq, Structural, Clone, Copy)]
pub enum Signal {
    SIGHUP,
    SIGINT,
    SIGQUIT,
    SIGKILL,
    SIGUSR1,
    SIGUSR2,
    SIGTERM,
    SIGCONT,
    SIGSTOP,
}

/// A pid that names one process: not zero, and within the range of the system's pid type.
pub open spec fn valid_target(pid: u32) -> bool {
    0 < pid <= i32::MAX
}

/// `pid` is to be signalled when the tree of `root` is terminated in `table`.
pub open spec fn is_kill_target(
    table: Seq<(u32, Option<u32>)>,
    root: u32,
    include_root: bool,
    pid: u32,
) -> bool {
    valid_target(pid) && ((include_root && pid == root) || is_descendant(table, root, pid))
}

/// `targets` holds exactly the processes to signal for the tree of `root` in `table`.
pub open spec fn is_target_set(
    table: Seq<(u32, Option<u32>)>,
    root: u32,
    include_root: bool,
    targets: Seq<u32>,
) -> bool {
    forall|pid: u32| targets.contains(pid) <==> is_kill_target(table, root, include_root, pid)
}

/// The processes to signal when terminating the tree of `root` as `table` shows it: its
/// descendants, and the root itself when asked for.
pub fn kill_targets(table: &Vec<(u32, Option<u32>)>, root: u32, include_root: bool) -> (r: Vec<u32>)
    ensures
        forall|pid: u32| r@.contains(pid) <==> is_kill_target(table@, root, include_root, pid),
        pids_distinct(table@) ==> r@.no_duplicates(),
{
    let below = descendants(table, root);
    let mut r: Vec<u32> = Vec::new();
    if include_root && 0 < root && root <= i32::MAX as u32 {
        r.push(root);
    }
    proof {
        assert forall|p: u32| r@.contains(p) <==> (include_root && valid_target(root) && p == root) by {
            if r@.len() > 0 {
                assert(r@[0] == root);
            }
        }
    }
    let mut k: usize = 0;
    while k < below.len()
        invariant
            k <= below.len(),
            forall|pid: u32| below@.contains(pid) <==> is_descendant(table@, root, pid),
            forall|pid: u32|
                r@.contains(pid) <==> ((include_root && valid_target(root) && pid == root) || (
                exists|m: int| 0 <= m < k && below@[m] == pid && valid_target(pid))),
            pids_distinct(table@) ==> below@.no_duplicates(),
            pids_distinct(table@) ==> r@.no_duplicates(),
        decreases below.len() - k,
    {
        let pid = below[k];
        let ghost before = r@;
        if 0 < pid && pid <= i32::MAX as u32 && !(include_root && pid == root) {
            r.push(pid);
            proof {
                if pids_distinct(table@) {
                    assert forall|a: int, b: int| 0 <= a < r@.len() && 0 <= b < r@.len() && a != b
                        implies r@[a] != r@[b] by {
                        if a == r@.len() - 1 || b == r@.len() - 1 {
                            let o = if a == r@.len() - 1 { b } else { a };
                            assert(before.contains(r@[o]));
                            if r@[o] == pid {
                                let m = choose|m: int| 0 <= m < k && below@[m] == pid && valid_target(pid);
                                assert(below@[m] == below@[k as int]);
                            }
                        }
                    }
                }
                assert forall|p: u32| r@.contains(p) implies ((include_root && valid_target(root)
                    && p == root) || (exists|m: int|
                    0 <= m < k + 1 && below@[m] == p && valid_target(p))) by {
                    if p != pid {
                        assert(before.contains(p));
                    } else {
                        assert(below@[k as int] == p);
                    }
                }
                assert forall|p: u32|
                    ((include_root && valid_target(root) && p == root) || (exists|m: int|
                        0 <= m < k + 1 && below@[m] == p && valid_target(p))) implies r@.contains(
                    p,
                ) by {
                    if p == pid {
                        assert(r@[r@.len() - 1] == p);
                    } else {
                        assert(before.contains(p));
                        let w = choose|w: int| 0 <= w < before.len() && before[w] == p;
                        assert(r@[w] == p);
                    }
                }
            }
        } else {
            proof {
                assert forall|p: u32|
                    ((include_root && valid_target(root) && p == root) || (exists|m: int|
                        0 <= m < k + 1 && below@[m] == p && valid_target(p))) implies r@.contains(
                    p,
                ) by {
                    if p != pid || !valid_target(p) {
                        if !(include_root && valid_target(root) && p == root) {
                            let m = choose|m: int| 0 <= m < k + 1 && below@[m] == p && valid_target(p);
                            assert(m < k);
                        }
                    }
                }
            }
        }
        k = k + 1;
    }
    proof {
        assert forall|pid: u32| r@.contains(pid) <==> is_kill_target(table@, root, include_root, pid) by {
            if is_descendant(table@, root, pid) && valid_target(pid) {
                assert(below@.contains(pid));
                let m = choose|m: int| 0 <= m < below.len() && below@[m] == pid;
                assert(below@[m] == pid);
            }
            if r@.contains(pid) && !(include_root && valid_target(root) && pid == root) {
                let m = choose|m: int| 0 <= m < k && below@[m] == pid && valid_target(pid);
                assert(below@.contains(pid));
            }
        }
    }
    r
}

/// Terminating a tree reaches all of it: every child of the root, and every child of a
/// process that is signalled, is signalled too (but for pids that name no single process).
pub proof fn lemma_targets_cover_tree(
    table: Seq<(u32, Option<u32>)>,
    root: u32,
    include_root: bool,
    parent: u32,
    child: u32,
)
    requires
        parent == root || is_kill_target(table, root, include_root, parent),
        is_child(table, child, parent),
        valid_target(child),
    ensures
        is_kill_target(table, root, include_root, child),
{
    if parent == root {
        let path = seq![root, child];
        assert(is_child(table, path[1], path[0]));
        assert(is_chain(table, path));
        assert(path.last() == child);
    } else {
        let p = choose|p: Seq<u32>|
            #![trigger is_chain(table, p), p.last()]
            p.len() >= 2 && p[0] == root && p.last() == parent && is_chain(table, p);
        let path = p.push(child);
        assert forall|m: int| 0 <= m < path.len() - 1 implies is_child(
            table,
            #[trigger] path[m + 1],
            path[m],
        ) by {
            if m < path.len() - 2 {
                assert(is_child(table, p[m + 1], p[m]));
            }
        }
        assert(is_chain(table, path));
        assert(path.last() == child);
    }
}

/// Sends `signal` to one process. Returns whether it was delivered; a pid that does not
/// name a single process is never signalled.
pub fn signal_process(pid: u32, signal: Signal) -> (delivered: bool)
    ensures
        !valid_target(pid) ==> !delivered,
{
    if 0 < pid && pid <= i32::MAX as u32 {
        sys::send_signal(pid, signal)
    } else {
        false
    }
}

/// Whether `pid` is in `pids`.
pub fn contains_pid(pids: &Vec<u32>, pid: u32) -> (r: bool)
    ensures
        r == pids@.contains(pid),
{
    let mut k: usize = 0;
    while k < pids.len()
        invariant
            k <= pids.len(),
            forall|m: int| 0 <= m < k ==> pids@[m] != pid,
        decreases pids.len() - k,
    {
        if pids[k] == pid {
            return true;
        }
        k = k + 1;
    }
    false
}

proof fn lemma_push_contains(s: Seq<u32>, x: u32, p: u32)
    ensures
        s.push(x).contains(p) <==> (s.contains(p) || p == x),
{
    let t = s.push(x);
    if t.contains(p) && p != x {
        let w = choose|w: int| 0 <= w < t.len() && t[w] == p;
        assert(s[w] == p);
    }
    if s.contains(p) {
        let w = choose|w: int| 0 <= w < s.len() && s[w] == p;
        assert(t[w] == p);
    }
    if p == x {
        assert(t[s.len() as int] == p);
    }
}

/// `fresh`, followed by the pids of `earlier` that name a single process and that
/// `fresh` does not already hold: no process is listed twice.
pub fn merge_targets(fresh: Vec<u32>, earlier: &Vec<u32>) -> (r: Vec<u32>)
    ensures
        forall|p: u32|
            r@.contains(p) <==> (fresh@.contains(p) || (earlier@.contains(p) && valid_target(p))),
        fresh@.no_duplicates() ==> r@.no_duplicates(),
{
    let mut r = fresh;
    let ghost f = r@;
    let mut k: usize = 0;
    while k < earlier.len()
        invariant
            k <= earlier.len(),
            forall|p: u32|
                #[trigger] r@.contains(p) <==> (f.contains(p) || (earlier@.take(k as int).contains(p)
                    && valid_target(p))),
            f.no_duplicates() ==> r@.no_duplicates(),
        decreases earlier.len() - k,
    {
        let pid = earlier[k];
        let ghost before = r@;
        let ghost prefix = earlier@.take(k as int);
        let ghost next = earlier@.take(k + 1);
        assert(forall|p: u32|
            #[trigger] before.contains(p) <==> (f.contains(p) || (prefix.contains(p) && valid_target(p))));
        proof {
            assert(earlier@.take(k + 1) =~= earlier@.take(k as int).push(pid));
            assert forall|p: u32| earlier@.take(k + 1).contains(p) <==> (earlier@.take(
                k as int,
            ).contains(p) || p == pid) by {
                lemma_push_contains(earlier@.take(k as int), pid, p);
            }
        }
        if 0 < pid && pid <= i32::MAX as u32 && !contains_pid(&r, pid) {
            r.push(pid);
            proof {
                assert forall|p: u32| r@.contains(p) <==> (before.contains(p) || p == pid) by {
                    lemma_push_contains(before, pid, p);
                }
                if f.no_duplicates() {
                    assert forall|i: int, j: int| 0 <= i < r@.len() && 0 <= j < r@.len() && i != j
                        implies r@[i] != r@[j] by {
                        if i == r@.len() - 1 {
                            assert(before[j] == r@[j]);
                            assert(before.contains(r@[j]));
                        } else if j == r@.len() - 1 {
                            assert(before[i] == r@[i]);
                            assert(before.contains(r@[i]));
                        }
                    }
                }
            }
        }
        proof {
            assert forall|p: u32|
                #[trigger] r@.contains(p) <==> (f.contains(p) || (next.contains(p)
                    && valid_target(p))) by {
                assert(next.contains(p) <==> (earlier@.take(k as int).contains(p)
                    || p == pid));
                assert(before.contains(p) <==> (f.contains(p) || (prefix.contains(p)
                    && valid_target(p))));
                if p == pid && valid_target(p) {
                    assert(r@.contains(p));
                }
                if p != pid {
                    assert(r@.contains(p) <==> before.contains(p));
                }
            }
        }
        k = k + 1;
        assert(earlier@.take(k as int) =~= next);
    }
    proof {
        assert(earlier@.take(earlier.len() as int) =~= earlier@);
    }
    r
}

/// Sends `signal` to every pid of `targets`.
fn send_to_all(targets: &Vec<u32>, signal: Signal)
    requires
        forall|p: u32| targets@.contains(p) ==> valid_target(p),
{
    let mut k: usize = 0;
    while k < targets.len()
        invariant
            k <= targets.len(),
            forall|p: u32| targets@.contains(p) ==> valid_target(p),
        decreases targets.len() - k,
    {
        let target = targets[k];
        assert(targets@[k as int] == target);
        assert(targets@.contains(target));
        assert(valid_target(target));
        let _ = sys::send_signal(target, signal);
        k = k + 1;
    }
}

/// Reads the live process table.
fn snapshot() -> (r: Vec<(u32, Option<u32>)>)
    ensures
        pids_distinct(r@),
{
    let mut system = sys::new_system();
    sys::refresh_processes(&mut system);
    sys::process_rows(&system)
}

/// Takes a fresh snapshot of the process table, then sends `signal` once to each
/// descendant of `pid`, and to `pid` itself when `include_root` holds. Processes that
/// are already gone are skipped silently. Returns the snapshot and the processes
/// signalled: exactly the targets in that snapshot.
pub fn signal_tree(pid: u32, signal: Signal, include_root: bool) -> (r: (Vec<(u32, Option<u32>)>, Vec<u32>))
    ensures
        pids_distinct(r.0@),
        is_target_set(r.0@, pid, include_root, r.1@),
        r.1@.no_duplicates(),
        forall|p: u32| r.1@.contains(p) ==> valid_target(p),
        include_root && valid_target(pid) ==> r.1@.contains(pid),
{
    let table = snapshot();
    let targets = kill_targets(&table, pid, include_root);
    send_to_all(&targets, signal);
    (table, targets)
}

/// As `signal_tree`, and also sends `signal` once to each process of `earlier` that the
/// fresh tree does not hold: processes signalled before that have since left the tree
/// (their parent exited) are not missed. Returns the snapshot and the processes signalled.
pub fn signal_tree_and(pid: u32, signal: Signal, include_root: bool, earlier: &Vec<u32>) -> (r: (
    Vec<(u32, Option<u32>)>,
    Vec<u32>,
))
    ensures
        pids_distinct(r.0@),
        forall|p: u32|
            r.1@.contains(p) <==> (is_kill_target(r.0@, pid, include_root, p) || (earlier@.contains(p)
                && valid_target(p))),
        r.1@.no_duplicates(),
{
    let table = snapshot();
    let fresh = kill_targets(&table, pid, include_root);
    let targets = merge_targets(fresh, earlier);
    send_to_all(&targets, signal);
    (table, targets)
}

/// Sends `signal` once to each process of the tree of `pid`, as the process table shows
/// it at the call; to `pid` itself when `kill_parent` holds. Returns the processes
/// signalled.
pub fn kill_pstree_with_signal(pid: u32, signal: Signal, kill_parent: bool) -> (r: Vec<u32>)
    ensures
        exists|table: Seq<(u32, Option<u32>)>|
            pids_distinct(table) && #[trigger] is_target_set(table, pid, kill_parent, r@),
        r@.no_duplicates(),
        forall|p: u32| r@.contains(p) ==> valid_target(p),
        kill_parent && valid_target(pid) ==> r@.contains(pid),
{
    let (table, targets) = signal_tree(pid, signal, kill_parent);
    assert(is_target_set(table@, pid, kill_parent, targets@));
    targets
}

/// Force-kills the whole tree of `pid` at once, with no grace period; `pid` itself too
/// when `kill_parent` holds. Returns the processes signalled.
pub fn kill_pstree_sync(pid: u32, kill_parent: bool) -> (r: Vec<u32>)
    ensures
        exists|table: Seq<(u32, Option<u32>)>|
            pids_distinct(table) && #[trigger] is_target_set(table, pid, kill_parent, r@),
        r@.no_duplicates(),
        forall|p: u32| r@.contains(p) ==> valid_target(p),
        kill_parent && valid_target(pid) ==> r@.contains(pid),
{
    kill_pstree_with_signal(pid, Signal::SIGKILL, kill_parent)
}

/// What an execution produced: the exit code, absent when the supervisor terminated the
/// process, and the lines of standard output and standard error in the order written.
#[derive(Debug)]
pub struct CommandResult {
    pub code: Option<i32>,
    pub out: Vec<String>,
    pub err: Vec<String>,
}

impl CommandResult {
    pub fn new() -> (r: Self)
        ensures
            r.code.is_none(),
            r.out@.len() == 0,
            r.err@.len() == 0,
    {
        CommandResult { code: None, out: Vec::new(), err: Vec::new() }
    }

    /// The process exited by itself with code zero.
    pub fn ok(&self) -> (r: bool)
        ensures
            r == (self.code == Some(0i32)),
    {
        match self.code {
            Some(v) => v == 0,
            None => false,
        }
    }
}

impl Default for CommandResult {
    fn default() -> (r: Self)
        ensures
            r.code.is_none(),
            r.out@.len() == 0,
            r.err@.len() == 0,
    {
        Self::new()
    }
}

/// The environment that a list of overrides sets: applied in order, so that a later entry
/// for a name replaces an earlier one.
pub open spec fn env_map(entries: Seq<(String, String)>) -> Map<Seq<char>, Seq<char>>
    decreases entries.len(),
{
    if entries.len() == 0 {
        Map::empty()
    } else {
        let last = entries.last();
        env_map(entries.drop_last()).insert(last.0@, last.1@)
    }
}

/// How a command is run: environment overrides, the grace period between the graceful
/// and the forced signal when it is terminated (in milliseconds; none means force at
/// once), and bytes to write to its standard input.
pub struct Options {
    environment: Vec<(String, String)>,
    tki: Option<u64>,
    input_data: Option<Vec<u8>>,
}

impl Options {
    /// The environment overrides, in the order given.
    pub closed spec fn env_entries(&self) -> Seq<(String, String)> {
        self.environment@
    }

    /// The environment the overrides set.
    pub open spec fn env_view(&self) -> Map<Seq<char>, Seq<char>> {
        env_map(self.env_entries())
    }

    pub closed spec fn grace_view(&self) -> Option<u64> {
        self.tki
    }

    pub closed spec fn input_view(&self) -> Option<Seq<u8>> {
        match self.input_data {
            Some(d) => Some(d@),
            None => None,
        }
    }

    pub fn new() -> (r: Self)
        ensures
            r.env_entries().len() == 0,
            r.env_view() == Map::<Seq<char>, Seq<char>>::empty(),
            r.grace_view().is_none(),
            r.input_view().is_none(),
    {
        Options { environment: Vec::new(), tki: None, input_data: None }
    }

    /// Sets the grace period, in milliseconds.
    pub fn tki(self, t: u64) -> (r: Self)
        ensures
            r.grace_view() == Some(t),
            r.env_entries() == self.env_entries(),
            r.input_view() == self.input_view(),
    {
        let mut o = self;
        o.tki = Some(t);
        o
    }

    /// Sets the bytes written to the command's standard input.
    pub fn input(self, data: Vec<u8>) -> (r: Self)
        ensures
            r.input_view() == Some(data@),
            r.env_entries() == self.env_entries(),
            r.grace_view() == self.grace_view(),
    {
        let mut o = self;
        o.input_data = Some(data);
        o
    }

    /// Sets one environment variable of the command, replacing an earlier value.
    pub fn env(self, name: &str, value: &str) -> (r: Self)
        ensures
            r.env_view() == self.env_view().insert(name@, value@),
            r.grace_view() == self.grace_view(),
            r.input_view() == self.input_view(),
    {
        let mut o = self;
        let ghost before = o.environment@;
        o.environment.push((name.to_owned(), value.to_owned()));
        proof {
            assert(o.env_entries().drop_last() =~= before);
        }
        o
    }

    pub fn environment(&self) -> (r: &Vec<(String, String)>)
        ensures
            r@ == self.env_entries(),
    {
        &self.environment
    }

    pub fn environment_mut(&mut self) -> (r: &mut Vec<(String, String)>)
        ensures
            r@ == old(self).env_entries(),
            final(self).env_entries() == final(r)@,
            final(self).grace_view() == old(self).grace_view(),
            final(self).input_view() == old(self).input_view(),
    {
        &mut self.environment
    }

    /// The grace period, in milliseconds.
    pub fn grace_period(&self) -> (r: Option<u64>)
        ensures
            r == self.grace_view(),
    {
        self.tki
    }

    /// The bytes to write to the command's standard input.
    pub fn input_data(&self) -> (r: Option<&Vec<u8>>)
        ensures
            r.is_some() == self.input_view().is_some(),
            r.is_some() ==> Some(r.unwrap()@) == self.input_view(),
    {
        match &self.input_data {
            Some(d) => Some(d),
            None => None,
        }
    }
}

impl Default for Options {
    fn default() -> (r: Self)
        ensures
            r.env_view() == Map::<Seq<char>, Seq<char>>::empty(),
            r.grace_view().is_none(),
            r.input_view().is_none(),
    {
        Self::new()
    }
}

/// One frame of a streamed execution: a line of output with its line ending, or the end,
/// with the exit code.
#[derive(Debug)]
pub enum CommandPipeOutput {
    Stdout(String),
    Stderr(String),
    Terminated(i32),
}

/// The code a streamed execution reports when the child could not be waited on, or
/// exited without a code (killed by a signal).
pub const PIPE_UNKNOWN_CODE: i32 = -99;

/// The exit code reported at the end of a streamed execution, from the outcome of
/// waiting on the child: `None` when waiting failed, `Some(None)` when it had no code.
pub fn pipe_exit_code(waited: Option<Option<i32>>) -> (r: i32)
    ensures
        r == match waited {
            Some(Some(c)) => c,
            _ => PIPE_UNKNOWN_CODE,
        },
{
    match waited {
        Some(Some(c)) => c,
        _ => PIPE_UNKNOWN_CODE,
    }
}

} // verus!
