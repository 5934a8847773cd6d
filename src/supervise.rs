//! The control loop of an execution: the single place where the events of a running
//! command (exit, timeout, output lines, I/O failures) are turned into a result.
//!
//! The tasks around a child process each send frames into one channel; the loop takes
//! them one at a time and answers each with an action for its driver to carry out.

use crate::process::CommandResult;
use vstd::prelude::*;

verus! {

/// An event of a running command, as sent into the control loop.
#[derive(Debug)]
pub enum CommandFrame<E> {
    /// The process exited by itself with this code.
    Finished(i32),
    /// The process ended without an exit code: the deadline passed and the supervisor
    /// terminated the process tree, or a signal ended it.
    Terminated,
    /// A line of standard output, without its line ending.
    Stdout(String),
    /// A line of standard error, without its line ending.
    Stderr(String),
    /// Reading, writing or waiting failed.
    Error(E),
}

/// Where the control loop stands.
#[derive(Debug, PartialEq, Eq, Structural, Clone, Copy)]
pub enum LoopPhase {
    /// No terminal event yet.
    Running,
    /// The process exited; lines still in flight are collected until the channel closes.
    Draining,
    /// Terminated or failed: nothing more is taken in.
    Done,
}

/// What the driver of the loop does after a frame.
#[derive(Debug)]
pub enum LoopAction<E> {
    /// Wait for the next frame.
    Continue,
    /// Cancel the deadline guard, then keep receiving until no producer is left.
    Drain,
    /// Cancel every other task and return the result so far.
    Stop,
    /// Cancel every other task, terminate the process tree, and return this failure.
    Fail(E),
}

/// The frame the wait task sends once waiting on the child returns, and whether it is to
/// hold it back for the length of the deadline first. Only a child that exited by itself
/// has an exit code. One ended by a signal has none, and is reported as terminated, never
/// with a made-up code; the frame is held back so that the lines still in flight, and the
/// guard's own `Terminated` when the signal was the supervisor's, come first.
pub fn exit_frame<E>(waited: Result<Option<i32>, E>) -> (r: (CommandFrame<E>, bool))
    ensures
        r == match waited {
            Ok(Some(c)) => (CommandFrame::<E>::Finished(c), false),
            Ok(None) => (CommandFrame::<E>::Terminated, true),
            Err(e) => (CommandFrame::<E>::Error(e), false),
        },
{
    match waited {
        Ok(Some(c)) => (CommandFrame::Finished(c), false),
        Ok(None) => (CommandFrame::Terminated, true),
        Err(e) => (CommandFrame::Error(e), false),
    }
}

/// The state of the control loop: its phase, the exit code seen, and the lines kept.
pub struct LoopState {
    pub phase: LoopPhase,
    pub code: Option<i32>,
    pub out: Seq<String>,
    pub err: Seq<String>,
}

/// A frame that ends an execution: exit, termination or failure.
pub open spec fn is_terminal<E>(frame: CommandFrame<E>) -> bool {
    match frame {
        CommandFrame::Stdout(_) | CommandFrame::Stderr(_) => false,
        _ => true,
    }
}

/// The action the loop answers `frame` with in `phase`. Only the first terminal frame
/// is acted on; anything after it only contributes lines.
pub open spec fn action_for<E>(phase: LoopPhase, frame: CommandFrame<E>) -> LoopAction<E> {
    if phase == LoopPhase::Running {
        match frame {
            CommandFrame::Finished(_) => LoopAction::Drain,
            CommandFrame::Terminated => LoopAction::Stop,
            CommandFrame::Error(e) => LoopAction::Fail(e),
            _ => LoopAction::Continue,
        }
    } else {
        LoopAction::Continue
    }
}

/// The payloads of the standard output frames among `frames`, in order.
pub open spec fn stdout_lines<E>(frames: Seq<CommandFrame<E>>) -> Seq<String>
    decreases frames.len(),
{
    if frames.len() == 0 {
        Seq::empty()
    } else {
        let rest = stdout_lines(frames.drop_last());
        match frames.last() {
            CommandFrame::Stdout(line) => rest.push(line),
            _ => rest,
        }
    }
}

/// The payloads of the standard error frames among `frames`, in order.
pub open spec fn stderr_lines<E>(frames: Seq<CommandFrame<E>>) -> Seq<String>
    decreases frames.len(),
{
    if frames.len() == 0 {
        Seq::empty()
    } else {
        let rest = stderr_lines(frames.drop_last());
        match frames.last() {
            CommandFrame::Stderr(line) => rest.push(line),
            _ => rest,
        }
    }
}

/// `frames[at]` is the first terminal frame.
pub open spec fn first_terminal_at<E>(frames: Seq<CommandFrame<E>>, at: int) -> bool {
    &&& 0 <= at < frames.len()
    &&& is_terminal(frames[at])
    &&& forall|j: int| 0 <= j < at ==> !is_terminal(#[trigger] frames[j])
}

impl LoopState {
    /// The state before any frame.
    pub open spec fn start() -> LoopState {
        LoopState { phase: LoopPhase::Running, code: None, out: Seq::empty(), err: Seq::empty() }
    }

    /// The state after one more frame.
    pub open spec fn next<E>(self, frame: CommandFrame<E>) -> LoopState {
        match self.phase {
            LoopPhase::Running => match frame {
                CommandFrame::Finished(c) => LoopState { phase: LoopPhase::Draining, code: Some(c), ..self },
                CommandFrame::Terminated => LoopState { phase: LoopPhase::Done, ..self },
                CommandFrame::Error(_) => LoopState { phase: LoopPhase::Done, ..self },
                CommandFrame::Stdout(line) => LoopState { out: self.out.push(line), ..self },
                CommandFrame::Stderr(line) => LoopState { err: self.err.push(line), ..self },
            },
            LoopPhase::Draining => match frame {
                CommandFrame::Stdout(line) => LoopState { out: self.out.push(line), ..self },
                CommandFrame::Stderr(line) => LoopState { err: self.err.push(line), ..self },
                _ => self,
            },
            LoopPhase::Done => self,
        }
    }

    /// The state after a whole sequence of frames, taken in order.
    pub open spec fn after<E>(self, frames: Seq<CommandFrame<E>>) -> LoopState
        decreases frames.len(),
    {
        if frames.len() == 0 {
            self
        } else {
            self.after(frames.drop_last()).next(frames.last())
        }
    }
}

/// The control loop of one execution.
pub struct CommandLoop {
    result: CommandResult,
    phase: LoopPhase,
}

impl CommandLoop {
    pub closed spec fn state(&self) -> LoopState {
        LoopState {
            phase: self.phase,
            code: self.result.code,
            out: self.result.out@,
            err: self.result.err@,
        }
    }

    pub fn new() -> (r: Self)
        ensures
            r.state() == LoopState::start(),
    {
        let r = CommandLoop { result: CommandResult::new(), phase: LoopPhase::Running };
        assert(r.state().out =~= Seq::<String>::empty());
        assert(r.state().err =~= Seq::<String>::empty());
        r
    }

    pub fn phase(&self) -> (r: LoopPhase)
        ensures
            r == self.state().phase,
    {
        self.phase
    }

    /// Takes in one frame and says what the driver is to do next.
    pub fn step<E>(&mut self, frame: CommandFrame<E>) -> (r: LoopAction<E>)
        ensures
            final(self).state() == old(self).state().next(frame),
            r == action_for(old(self).state().phase, frame),
    {
        match self.phase {
            LoopPhase::Running => match frame {
                CommandFrame::Finished(c) => {
                    self.result.code = Some(c);
                    self.phase = LoopPhase::Draining;
                    LoopAction::Drain
                },
                CommandFrame::Terminated => {
                    self.phase = LoopPhase::Done;
                    LoopAction::Stop
                },
                CommandFrame::Error(e) => {
                    self.phase = LoopPhase::Done;
                    LoopAction::Fail(e)
                },
                CommandFrame::Stdout(line) => {
                    self.result.out.push(line);
                    LoopAction::Continue
                },
                CommandFrame::Stderr(line) => {
                    self.result.err.push(line);
                    LoopAction::Continue
                },
            },
            LoopPhase::Draining => match frame {
                CommandFrame::Stdout(line) => {
                    self.result.out.push(line);
                    LoopAction::Continue
                },
                CommandFrame::Stderr(line) => {
                    self.result.err.push(line);
                    LoopAction::Continue
                },
                _ => LoopAction::Continue,
            },
            LoopPhase::Done => LoopAction::Continue,
        }
    }

    /// The result of the execution, once the loop has ended.
    pub fn into_result(self) -> (r: CommandResult)
        ensures
            r.code == self.state().code,
            r.out@ == self.state().out,
            r.err@ == self.state().err,
    {
        self.result
    }
}

/// The state after the first `n` frames, when the first terminal frame is at `at`.
pub open spec fn state_after_prefix<E>(frames: Seq<CommandFrame<E>>, at: int, n: int) -> LoopState {
    if n <= at {
        LoopState {
            phase: LoopPhase::Running,
            code: None,
            out: stdout_lines(frames.take(n)),
            err: stderr_lines(frames.take(n)),
        }
    } else {
        match frames[at] {
            CommandFrame::Finished(c) => LoopState {
                phase: LoopPhase::Draining,
                code: Some(c),
                out: stdout_lines(frames.take(n)),
                err: stderr_lines(frames.take(n)),
            },
            _ => LoopState {
                phase: LoopPhase::Done,
                code: None,
                out: stdout_lines(frames.take(at)),
                err: stderr_lines(frames.take(at)),
            },
        }
    }
}

proof fn lemma_prefix_state<E>(frames: Seq<CommandFrame<E>>, at: int, n: int)
    requires
        first_terminal_at(frames, at),
        0 <= n <= frames.len(),
    ensures
        LoopState::start().after(frames.take(n)) == state_after_prefix(frames, at, n),
    decreases n,
{
    if n == 0 {
        assert(frames.take(0) =~= Seq::<CommandFrame<E>>::empty());
    } else {
        lemma_prefix_state(frames, at, n - 1);
        let t = frames.take(n);
        assert(t.drop_last() =~= frames.take(n - 1));
        assert(t.last() == frames[n - 1]);
        if n - 1 < at {
            assert(!is_terminal(frames[n - 1]));
        }
    }
}

/// When the process exits by itself before anything else ends the execution, the result
/// carries its exit code and every line sent, before and after the exit, each stream in
/// its own order.
pub proof fn lemma_finished_keeps_every_line<E>(frames: Seq<CommandFrame<E>>, at: int, code: i32)
    requires
        first_terminal_at(frames, at),
        frames[at] == CommandFrame::<E>::Finished(code),
    ensures
        LoopState::start().after(frames) == (LoopState {
            phase: LoopPhase::Draining,
            code: Some(code),
            out: stdout_lines(frames),
            err: stderr_lines(frames),
        }),
{
    lemma_prefix_state(frames, at, frames.len() as int);
    assert(frames.take(frames.len() as int) =~= frames);
}

/// When the deadline guard terminates the process first, the result has no exit code
/// and holds the lines sent before the termination.
pub proof fn lemma_terminated_has_no_code<E>(frames: Seq<CommandFrame<E>>, at: int)
    requires
        first_terminal_at(frames, at),
        frames[at] == CommandFrame::<E>::Terminated,
    ensures
        LoopState::start().after(frames) == (LoopState {
            phase: LoopPhase::Done,
            code: None,
            out: stdout_lines(frames.take(at)),
            err: stderr_lines(frames.take(at)),
        }),
{
    lemma_prefix_state(frames, at, frames.len() as int);
    assert(frames.take(frames.len() as int) =~= frames);
}

/// Of all the frames of an execution, only the first terminal one is answered with
/// anything but `Continue`: a guard that fires after the exit, or a failure after the
/// termination, starts nothing.
pub proof fn lemma_single_terminal_decision<E>(frames: Seq<CommandFrame<E>>, at: int, j: int)
    requires
        first_terminal_at(frames, at),
        0 <= j < frames.len(),
    ensures
        (action_for(LoopState::start().after(frames.take(j)).phase, frames[j]) == LoopAction::<E>::Continue)
            <==> j != at,
{
    lemma_prefix_state(frames, at, j);
    if j < at {
        assert(!is_terminal(frames[j]));
    }
}

} // verus!
