use bmart::escalate::{Escalation, EscalationAction, EscalationEvent, EscalationPhase};
use bmart::process::{
    contains_pid, kill_pstree_sync, kill_pstree_with_signal, kill_targets, merge_targets, pipe_exit_code,
    signal_process, signal_tree, signal_tree_and, CommandPipeOutput, CommandResult, Options, Signal,
    PIPE_UNKNOWN_CODE, SLEEP_STEP_MS,
};
use bmart::supervise::{exit_frame, CommandFrame, CommandLoop, LoopAction, LoopPhase};
use bmart::tree::descendants;
use bmart::{Error, ErrorKind};

fn run(frames: Vec<CommandFrame<String>>) -> (Vec<&'static str>, CommandResult) {
    let mut lp = CommandLoop::new();
    let mut actions = Vec::new();
    for f in frames {
        let a = lp.step(f);
        actions.push(match a {
            LoopAction::Continue => "continue",
            LoopAction::Drain => "drain",
            LoopAction::Stop => "stop",
            LoopAction::Fail(_) => "fail",
        });
    }
    (actions, lp.into_result())
}

fn line(s: &str) -> String {
    s.to_owned()
}

#[test]
fn finished_with_code_and_lines() {
    // echo hi; exit 3
    let (actions, r) = run(vec![CommandFrame::Stdout(line("hi")), CommandFrame::Finished(3)]);
    assert_eq!(actions, vec!["continue", "drain"]);
    assert_eq!(r.code, Some(3));
    assert_eq!(r.out, vec!["hi".to_owned()]);
    assert!(r.err.is_empty());
    assert!(!r.ok());
}

#[test]
fn lines_in_flight_after_exit_are_kept() {
    let (actions, r) = run(vec![
        CommandFrame::Stdout(line("a")),
        CommandFrame::Stderr(line("e1")),
        CommandFrame::Finished(0),
        CommandFrame::Stdout(line("b")),
        CommandFrame::Terminated,
        CommandFrame::Error(line("late")),
        CommandFrame::Stderr(line("e2")),
    ]);
    assert_eq!(actions, vec!["continue", "continue", "drain", "continue", "continue", "continue", "continue"]);
    assert_eq!(r.code, Some(0));
    assert_eq!(r.out, vec!["a".to_owned(), "b".to_owned()]);
    assert_eq!(r.err, vec!["e1".to_owned(), "e2".to_owned()]);
    assert!(r.ok());
}

#[test]
fn deadline_gives_no_code() {
    // sleep 10 with a deadline of 1s
    let mut lp = CommandLoop::new();
    assert!(matches!(lp.step(CommandFrame::<String>::Stdout(line("x"))), LoopAction::Continue));
    assert!(matches!(lp.step(CommandFrame::<String>::Terminated), LoopAction::Stop));
    assert_eq!(lp.phase(), LoopPhase::Done);
    assert!(matches!(lp.step(CommandFrame::<String>::Stdout(line("y"))), LoopAction::Continue));
    assert!(matches!(lp.step(CommandFrame::<String>::Finished(0)), LoopAction::Continue));
    let r = lp.into_result();
    assert_eq!(r.code, None);
    assert_eq!(r.out, vec!["x".to_owned()]);
    assert!(!r.ok());
}

#[test]
fn failure_is_handed_back() {
    let mut lp = CommandLoop::new();
    match lp.step(CommandFrame::Error(line("broken pipe"))) {
        LoopAction::Fail(e) => assert_eq!(e, "broken pipe"),
        _ => panic!("expected a failure"),
    }
    assert_eq!(lp.phase(), LoopPhase::Done);
    assert_eq!(lp.into_result().code, None);
}

#[test]
fn many_lines_none_dropped() {
    let mut frames = Vec::new();
    for i in 0..1000 {
        frames.push(CommandFrame::Stdout(format!("o{}", i)));
        if i % 3 == 0 {
            frames.push(CommandFrame::Stderr(format!("e{}", i)));
        }
    }
    frames.push(CommandFrame::Finished(0));
    let (_, r) = run(frames);
    assert_eq!(r.out.len(), 1000);
    for (i, l) in r.out.iter().enumerate() {
        assert_eq!(l, &format!("o{}", i));
    }
    assert_eq!(r.err.len(), 334);
    assert_eq!(r.err[1], "e3");
}

#[test]
fn independent_loops_do_not_mix() {
    let mut loops: Vec<CommandLoop> = (0..50).map(|_| CommandLoop::new()).collect();
    for round in 0..3 {
        for (i, lp) in loops.iter_mut().enumerate() {
            lp.step(CommandFrame::<String>::Stdout(format!("{}-{}", i, round)));
        }
    }
    for (i, lp) in loops.iter_mut().enumerate() {
        lp.step(CommandFrame::<String>::Finished(i as i32));
    }
    for (i, lp) in loops.into_iter().enumerate() {
        let r = lp.into_result();
        assert_eq!(r.code, Some(i as i32));
        assert_eq!(r.out, (0..3).map(|k| format!("{}-{}", i, k)).collect::<Vec<_>>());
    }
}

#[test]
fn wait_outcomes_become_frames() {
    assert!(matches!(exit_frame::<String>(Ok(Some(7))), (CommandFrame::Finished(7), false)));
    assert!(matches!(exit_frame::<String>(Ok(None)), (CommandFrame::Terminated, true)));
    match exit_frame::<String>(Err(line("gone"))) {
        (CommandFrame::Error(e), false) => assert_eq!(e, "gone"),
        _ => panic!("expected an error frame"),
    }
}

#[test]
fn descendants_of_shell_and_sleep() {
    // 1 -> 10 (shell) -> 11 (sleep); 10 -> 12 -> 13; 20 unrelated
    let table = vec![
        (1, None),
        (10, Some(1)),
        (11, Some(10)),
        (12, Some(10)),
        (13, Some(12)),
        (20, Some(1)),
    ];
    let mut d = descendants(&table, 10);
    d.sort();
    assert_eq!(d, vec![11, 12, 13]);
    let mut all = descendants(&table, 1);
    all.sort();
    assert_eq!(all, vec![10, 11, 12, 13, 20]);
    assert!(descendants(&table, 13).is_empty());
    assert!(descendants(&Vec::new(), 1).is_empty());
}

#[test]
fn descendants_stop_on_cycles() {
    let table = vec![(2, Some(3)), (3, Some(2)), (4, Some(3))];
    let mut d = descendants(&table, 2);
    d.sort();
    assert_eq!(d, vec![2, 3, 4]);
}

#[test]
fn kill_targets_with_and_without_root() {
    let table = vec![(10, Some(1)), (11, Some(10)), (0, Some(10)), (3_000_000_000, Some(11))];
    let mut t = kill_targets(&table, 10, true);
    t.sort();
    assert_eq!(t, vec![10, 11]);
    let t = kill_targets(&table, 10, false);
    assert_eq!(t, vec![11]);
    // the root listed once even when a cycle leads back to it
    let cyclic = vec![(2, Some(3)), (3, Some(2))];
    let mut t = kill_targets(&cyclic, 2, true);
    t.sort();
    assert_eq!(t, vec![2, 3]);
    assert!(kill_targets(&table, 0, true).is_empty());
}

#[test]
fn no_signal_to_process_groups() {
    assert!(!signal_process(0, Signal::SIGTERM));
    assert!(!signal_process(u32::MAX, Signal::SIGKILL));
    // no such process and no such children: nothing is signalled
    let (table, targets) = signal_tree(3_000_000_000, Signal::SIGTERM, true);
    assert!(targets.is_empty());
    assert!(!table.is_empty());
    let (_, targets) = signal_tree_and(3_000_000_000, Signal::SIGKILL, true, &vec![0, 3_500_000_000]);
    assert!(targets.is_empty());
    assert!(kill_pstree_sync(3_000_000_000, true).is_empty());
    assert!(kill_pstree_with_signal(3_000_000_000, Signal::SIGHUP, false).is_empty());
}

#[test]
fn killed_child_reports_no_code() {
    let mut lp = CommandLoop::new();
    lp.step(CommandFrame::<String>::Stdout(line("partial")));
    let (frame, hold) = exit_frame::<String>(Ok(None));
    assert!(hold);
    assert!(matches!(lp.step(frame), LoopAction::Stop));
    let r = lp.into_result();
    assert_eq!(r.code, None);
    assert_eq!(r.out, vec!["partial".to_owned()]);
}

#[test]
fn merged_targets_keep_survivors_once() {
    let r = merge_targets(vec![5, 7], &vec![7, 9, 0, 9, 3_000_000_000, 5, 11]);
    assert_eq!(r, vec![5, 7, 9, 11]);
    assert!(merge_targets(Vec::new(), &Vec::new()).is_empty());
    assert!(contains_pid(&vec![1, 2, 3], 3));
    assert!(!contains_pid(&vec![1, 2, 3], 4));
}

#[test]
fn escalation_without_grace_is_immediate() {
    let (mut e, a) = Escalation::start(None, true);
    assert_eq!(a, EscalationAction::SignalTree(Signal::SIGKILL));
    assert_eq!(e.step(EscalationEvent::TreeSignalled(3)), EscalationAction::Done);
    assert_eq!(e.phase, EscalationPhase::Finished);
}

#[test]
fn escalation_waits_then_forces() {
    let (mut e, a) = Escalation::start(Some(250), true);
    assert_eq!(a, EscalationAction::SignalTree(Signal::SIGTERM));
    assert_eq!(e.step(EscalationEvent::TreeSignalled(1)), EscalationAction::SleepThenProbe(SLEEP_STEP_MS));
    assert_eq!(
        e.step(EscalationEvent::Probed { root_alive: true, elapsed_ms: 100 }),
        EscalationAction::SleepThenProbe(100)
    );
    assert_eq!(
        e.step(EscalationEvent::Probed { root_alive: true, elapsed_ms: 250 }),
        EscalationAction::ForceTree
    );
    assert_eq!(e.step(EscalationEvent::TreeSignalled(0)), EscalationAction::Done);
}

#[test]
fn escalation_stops_waiting_when_root_is_gone() {
    let (mut e, _) = Escalation::start(Some(5000), false);
    assert_eq!(e.step(EscalationEvent::TreeSignalled(2)), EscalationAction::SleepThenProbe(100));
    assert_eq!(
        e.step(EscalationEvent::Probed { root_alive: false, elapsed_ms: 100 }),
        EscalationAction::ForceTree
    );
}

#[test]
fn escalation_with_nothing_to_kill_ends() {
    let (mut e, _) = Escalation::start(Some(5000), false);
    assert_eq!(e.step(EscalationEvent::TreeSignalled(0)), EscalationAction::Done);
    let (mut z, _) = Escalation::start(Some(0), true);
    assert_eq!(z.step(EscalationEvent::TreeSignalled(0)), EscalationAction::ForceTree);
}

#[test]
fn options_builders() {
    let o = Options::new().env("A", "1").env("B", "2").env("A", "3").tki(1500).input(b"data".to_vec());
    assert_eq!(o.grace_period(), Some(1500));
    assert_eq!(o.input_data().unwrap(), &b"data".to_vec());
    let env = o.environment();
    assert_eq!(env.last().unwrap(), &("A".to_owned(), "3".to_owned()));
    let d = Options::default();
    assert!(d.environment().is_empty());
    assert_eq!(d.grace_period(), None);
    assert!(d.input_data().is_none());
    let mut m = Options::new();
    m.environment_mut().push(("X".to_owned(), "y".to_owned()));
    assert_eq!(m.environment().len(), 1);
}

#[test]
fn command_result_defaults() {
    let r = CommandResult::default();
    assert_eq!(r.code, None);
    assert!(r.out.is_empty() && r.err.is_empty());
    assert!(!CommandResult::new().ok());
}

#[test]
fn pipe_codes() {
    assert_eq!(pipe_exit_code(Some(Some(4))), 4);
    assert_eq!(pipe_exit_code(Some(None)), PIPE_UNKNOWN_CODE);
    assert_eq!(pipe_exit_code(None), -99);
    assert!(matches!(CommandPipeOutput::Terminated(1), CommandPipeOutput::Terminated(1)));
}

#[test]
fn error_texts() {
    let e = Error::duplicate("lock x");
    assert_eq!(e.kind, ErrorKind::Duplicate);
    assert_eq!(e.to_string(), "Duplicate: lock x");
    assert_eq!(Error::not_found("w").to_string(), "Not found: w");
    assert_eq!(Error::timeout().to_string(), "Timeout");
    assert_eq!(Error::internal("boom").to_string(), "Internal: boom");
    assert_eq!(Error::invalid_data("bad").to_string(), "InvalidData: bad");
    assert_eq!(Error::timeout().message, None);
    assert_eq!(ErrorKind::NotFound.as_str(), "Not found");
}
