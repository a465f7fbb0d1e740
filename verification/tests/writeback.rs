use yggdrasil::comunicacao::writeback::is_truthy;
use yggdrasil::comunicacao::writeback::{
    is_user_path, GitCommand, GitOutput, RunStage, RunStep, Writeback, WritebackConfig,
    WritebackError, WritebackOutcome,
};

#[test]
fn is_user_path_detecta_segmento() {
    assert!(is_user_path("yoruba/terms/_users/alice/ase.md"));
    assert!(is_user_path("_users/x.md"));
    assert!(!is_user_path("yoruba/terms/curado.md"));
    assert!(!is_user_path("_userss/x.md"));
}

fn ok_output(success: bool) -> GitOutput {
    GitOutput {
        success,
        status: if success { "exit status: 0".into() } else { "exit status: 1".into() },
        stderr: "  boom \n".into(),
    }
}

#[test]
fn gate_off_is_a_no_op() {
    let mut cfg = WritebackConfig::for_testing("/tmp/repo");
    cfg.enabled = false;
    let wb = Writeback::new(cfg);
    let step = wb.run(&["a/_users/b.md".to_string()], "m", RunStage::Start, None);
    assert!(matches!(step, RunStep::Done(Ok(WritebackOutcome::Disabled))));
}

#[test]
fn paths_outside_users_are_not_staged() {
    let wb = Writeback::new(WritebackConfig::for_testing("/tmp/repo"));
    let step = wb.run(&["yoruba/terms/curado.md".to_string()], "m", RunStage::Start, None);
    assert!(matches!(step, RunStep::Done(Ok(WritebackOutcome::NothingToCommit))));
}

#[test]
fn a_contribution_walks_through_add_and_commit() {
    let wb = Writeback::new(WritebackConfig::for_testing("/tmp/repo"));
    let paths = vec!["x.md".to_string(), "yoruba/terms/_users/alice/ase.md".to_string()];
    let s1 = wb.run(&paths, "feat: x", RunStage::Start, None);
    assert!(matches!(s1, RunStep::Request { stage: RunStage::AwaitRepo, command: GitCommand::CheckRepo }));
    let s2 = wb.run(&paths, "feat: x", RunStage::AwaitRepo, Some(Ok(ok_output(true))));
    match s2 {
        RunStep::Request { stage: RunStage::AwaitAdd, command: GitCommand::Git(args) } => {
            assert_eq!(args, vec!["add", "--", "yoruba/terms/_users/alice/ase.md"]);
        }
        other => panic!("unexpected {other:?}"),
    }
    let s3 = wb.run(&paths, "feat: x", RunStage::AwaitAdd, Some(Ok(ok_output(true))));
    assert!(matches!(s3, RunStep::Request { stage: RunStage::AwaitIndex, command: GitCommand::IndexClean }));
    let s4 = wb.run(&paths, "feat: x", RunStage::AwaitIndex, Some(Ok(ok_output(false))));
    match s4 {
        RunStep::Request { stage: RunStage::AwaitCommit, command: GitCommand::Git(args) } => {
            assert_eq!(
                args,
                vec![
                    "-c",
                    "user.name=Test Bot",
                    "-c",
                    "user.email=test@yggdrasil",
                    "commit",
                    "-m",
                    "feat: x",
                    "--"
                ]
            );
        }
        other => panic!("unexpected {other:?}"),
    }
    let s5 = wb.run(&paths, "feat: x", RunStage::AwaitCommit, Some(Ok(ok_output(true))));
    assert!(matches!(s5, RunStep::Done(Ok(WritebackOutcome::Committed { pushed: false }))));
}

#[test]
fn not_a_repo_and_failures_are_errors() {
    let wb = Writeback::new(WritebackConfig::for_testing("/tmp/repo"));
    let paths = vec!["_users/a.md".to_string()];
    let s = wb.run(&paths, "m", RunStage::AwaitRepo, Some(Ok(ok_output(false))));
    assert!(matches!(s, RunStep::Done(Err(WritebackError::NotAGitRepo(d))) if d == "/tmp/repo"));
    let s = wb.run(&paths, "m", RunStage::AwaitAdd, Some(Ok(ok_output(false))));
    match s {
        RunStep::Done(Err(WritebackError::Git { cmd, status, stderr })) => {
            assert_eq!(cmd, "add");
            assert_eq!(status, "exit status: 1");
            assert_eq!(stderr, "boom");
        }
        other => panic!("unexpected {other:?}"),
    }
    let s = wb.run(&paths, "m", RunStage::AwaitIndex, Some(Err("no git".to_string())));
    assert!(matches!(s, RunStep::Done(Err(WritebackError::Spawn(m))) if m == "no git"));
    let s = wb.run(&paths, "m", RunStage::AwaitIndex, Some(Ok(ok_output(true))));
    assert!(matches!(s, RunStep::Done(Ok(WritebackOutcome::NothingToCommit))));
}

#[test]
fn push_outcome_is_reported() {
    let mut cfg = WritebackConfig::for_testing("/tmp/repo");
    cfg.push = true;
    let wb = Writeback::new(cfg);
    let paths = vec!["_users/a.md".to_string()];
    let s = wb.commit_paths(&paths, "m", RunStage::AwaitCommit, Some(Ok(ok_output(true))));
    match s {
        RunStep::Request { stage: RunStage::AwaitPush, command: GitCommand::Git(args) } => {
            assert_eq!(args, vec!["push", "origin", "HEAD"]);
        }
        other => panic!("unexpected {other:?}"),
    }
    let s = wb.commit_paths(&paths, "m", RunStage::AwaitPush, Some(Ok(ok_output(false))));
    assert!(matches!(s, RunStep::Done(Ok(WritebackOutcome::Committed { pushed: false }))));
    let s = wb.commit_paths(&paths, "m", RunStage::AwaitPush, Some(Ok(ok_output(true))));
    assert!(matches!(s, RunStep::Done(Ok(WritebackOutcome::Committed { pushed: true }))));
}

#[test]
fn truthy_settings() {
    for v in ["1", "true", " TRUE ", "On", "yes\n"] {
        assert!(is_truthy(v), "{v:?}");
    }
    for v in ["", "0", "no", "2", "truee", "y"] {
        assert!(!is_truthy(v), "{v:?}");
    }
}
