use lambda_finder::pull::{branches, pull_step, start_pull, PullAction, PullEvent, PullStage};

fn logs(actions: &[PullAction]) -> Vec<String> {
    actions
        .iter()
        .filter_map(|a| match a {
            PullAction::Log(s) => Some(s.clone()),
            _ => None,
        })
        .collect()
}

/// Drives a session to its end, answering every request with `answer`,
/// and returns every log line plus the final result.
fn drive(
    root: &str,
    branch: &str,
    mut answer: impl FnMut(&PullAction) -> PullEvent,
) -> (Vec<String>, bool, Option<String>, usize) {
    let (mut s, mut actions) = start_pull(root, branch);
    let mut lines = Vec::new();
    let mut steps = 0;
    loop {
        lines.extend(logs(&actions));
        let last = actions.last().expect("every batch ends with a request");
        if let PullAction::Done(d) = last {
            assert_eq!(s.stage, PullStage::Over);
            return (lines, d.ok, d.error.clone(), steps);
        }
        let e = answer(last);
        let (t, a) = pull_step(&s, &e);
        s = t;
        actions = a;
        steps += 1;
        assert!(steps < 100);
    }
}

#[test]
fn allowed_branches() {
    assert_eq!(
        branches(),
        vec!["release/develop", "release/uat", "release/pre-prod", "production-release"]
    );
}

#[test]
fn invalid_branch_ends_at_once() {
    let (lines, ok, err, steps) = drive("/r", "main", |_| PullEvent::RootChecked(true));
    assert_eq!(steps, 0);
    assert!(!ok);
    assert_eq!(err.as_deref(), Some("Invalid branch: main"));
    assert_eq!(
        lines,
        vec!["!! ERROR: Invalid branch 'main'. Allowed: release/develop, release/uat, release/pre-prod, production-release"]
    );
}

#[test]
fn missing_root_fails() {
    let (lines, ok, err, _) = drive("/nope", "release/uat", |_| PullEvent::RootChecked(false));
    assert!(!ok);
    assert_eq!(err.as_deref(), Some("Repo root does not exist: /nope"));
    assert_eq!(lines, vec!["!! ERROR: Repo root does not exist: /nope"]);
}

#[test]
fn full_successful_pull() {
    let mut git_runs: Vec<(String, Vec<String>, bool)> = Vec::new();
    let (lines, ok, err, steps) = drive("/r", "release/uat", |a| match a {
        PullAction::CheckRoot(_) => PullEvent::RootChecked(true),
        PullAction::CheckRepo(f) => PullEvent::RepoChecked(true, format!("/r/{}", f)),
        PullAction::Git(dir, args, out) => {
            git_runs.push((dir.clone(), args.clone(), *out));
            PullEvent::Finished(Ok(0))
        }
        _ => unreachable!(),
    });
    assert!(ok);
    assert_eq!(err, None);
    assert_eq!(steps, 1 + 6 * 5);
    assert_eq!(git_runs.len(), 24);
    assert_eq!(git_runs[0], ("service-requests-backend".to_string(), vec!["fetch".to_string(), "--all".to_string()], true));
    assert_eq!(
        git_runs[1].1,
        vec!["show-ref", "--verify", "--quiet", "refs/remotes/origin/release/uat"]
    );
    assert!(!git_runs[1].2);
    assert_eq!(git_runs[2].1, vec!["checkout", "release/uat"]);
    assert_eq!(git_runs[3].1, vec!["pull", "origin", "release/uat"]);
    assert_eq!(git_runs[23].0, "backend-lambdas");
    assert!(git_runs.iter().all(|r| r.0 != "utec-microservices"));
    assert_eq!(lines[0], "==> Using branch: release/uat");
    assert_eq!(lines[1], "==> Working in: /r");
    assert_eq!(lines[2], "");
    assert_eq!(lines[3], "********* Pulling service-requests-backend (release/uat) ******");
    assert_eq!(lines[4], "*********** service-requests-backend pull is done **************");
    assert_eq!(lines.last().unwrap(), "==> All done.");
}

#[test]
fn failures_are_logged_and_skipped() {
    let (lines, ok, _, _) = drive("/r", "production-release", |a| match a {
        PullAction::CheckRoot(_) => PullEvent::RootChecked(true),
        PullAction::CheckRepo(f) => {
            PullEvent::RepoChecked(f != "polaris-backend", format!("/r/{}", f))
        }
        PullAction::Git(dir, args, _) => {
            if dir == "service-requests-backend" && args[0] == "fetch" {
                PullEvent::Finished(Err("spawn error: \"git\" not found".to_string()))
            } else if dir == "service-sr-tracker" && args[0] == "show-ref" {
                PullEvent::Finished(Ok(1))
            } else if dir == "bpd-qrc-backend" && args[0] == "checkout" {
                PullEvent::Finished(Ok(128))
            } else if dir == "service-user-onboarding" && args[0] == "pull" {
                PullEvent::Finished(Ok(-1))
            } else {
                PullEvent::Finished(Ok(0))
            }
        }
        _ => unreachable!(),
    });
    assert!(ok);
    assert!(lines.contains(&"!! git fetch failed for service-requests-backend (Err(\"spawn error: \\\"git\\\" not found\"))".to_string()));
    assert!(lines.contains(&"!! Skipping polaris-backend (directory not found at /r/polaris-backend)".to_string()));
    assert!(lines.contains(&"!! Branch production-release not found on origin for service-sr-tracker, skipping.".to_string()));
    assert!(lines.contains(&"!! git checkout failed for bpd-qrc-backend (Ok(128))".to_string()));
    assert!(lines.contains(&"!! git pull failed for service-user-onboarding (Ok(-1))".to_string()));
    assert!(lines.contains(&"*********** service-user-onboarding pull is done **************".to_string()));
    assert!(!lines.contains(&"*********** bpd-qrc-backend pull is done **************".to_string()));
}

#[test]
fn unexpected_events_change_nothing() {
    let (s, _) = start_pull("/r", "release/develop");
    let (t, a) = pull_step(&s, &PullEvent::Finished(Ok(0)));
    assert!(a.is_empty());
    assert_eq!(t.stage, PullStage::Root);
    let (over, _) = start_pull("/r", "nope");
    let (t, a) = pull_step(&over, &PullEvent::RootChecked(true));
    assert!(a.is_empty());
    assert_eq!(t.stage, PullStage::Over);
}

/// Feeds a session a fixed list of events, collecting every action it asks for.
fn run_events(root: &str, branch: &str, events: Vec<PullEvent>) -> (PullStage, Vec<PullAction>) {
    let (mut s, mut all) = start_pull(root, branch);
    for e in events {
        let (t, a) = pull_step(&s, &e);
        s = t;
        all.extend(a);
    }
    (s.stage, all)
}

#[test]
fn a_run_has_one_done_at_its_end() {
    let events = vec![
        PullEvent::RepoChecked(true, "/r/x".to_string()),
        PullEvent::RootChecked(false),
        PullEvent::RootChecked(true),
        PullEvent::Finished(Ok(0)),
    ];
    let (stage, all) = run_events("/r", "release/uat", events);
    assert_eq!(stage, PullStage::Over);
    let dones: Vec<usize> = (0..all.len()).filter(|&i| matches!(all[i], PullAction::Done(_))).collect();
    assert_eq!(dones, vec![all.len() - 1]);
    match all.last().unwrap() {
        PullAction::Done(d) => {
            assert!(!d.ok);
            assert_eq!(d.error.as_deref(), Some("Repo root does not exist: /r"));
        }
        _ => unreachable!(),
    }

    let mut events = vec![PullEvent::RootChecked(true)];
    for _ in 0..6 {
        events.push(PullEvent::RepoChecked(false, "gone".to_string()));
    }
    events.push(PullEvent::RootChecked(false));
    let (stage, all) = run_events("/r", "release/develop", events);
    assert_eq!(stage, PullStage::Over);
    let dones: Vec<usize> = (0..all.len()).filter(|&i| matches!(all[i], PullAction::Done(_))).collect();
    assert_eq!(dones, vec![all.len() - 1]);
    match all.last().unwrap() {
        PullAction::Done(d) => {
            assert!(d.ok);
            assert_eq!(d.error, None);
        }
        _ => unreachable!(),
    }

    let (stage, all) = run_events("/r", "release/develop", vec![PullEvent::RootChecked(true)]);
    assert_eq!(stage, PullStage::Repo);
    assert!(!all.iter().any(|a| matches!(a, PullAction::Done(_))));
}
