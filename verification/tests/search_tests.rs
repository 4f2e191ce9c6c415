use lambda_finder::search::{find_step, start_find, FindEvent, FindRequest, FindStage};

const ORDERS: &str = "Resources:
  CreateOrder:
    Properties:
      Path: /orders/create
";

#[test]
fn failed_check_ends_at_once() {
    let (s, q) = start_find("", "x", "dev");
    assert_eq!(s.stage, FindStage::Over);
    match q {
        FindRequest::Done(Err(e)) => assert_eq!(e, "repoRoot is required"),
        other => panic!("unexpected {:?}", other),
    }
}

#[test]
fn full_search_session() {
    let (s, q) = start_find("/root", "  /orders/create ", "dev");
    assert_eq!(s.stage, FindStage::Paths);
    let folders = match q {
        FindRequest::CheckPaths(root, folders) => {
            assert_eq!(root, "/root");
            folders
        }
        other => panic!("unexpected {:?}", other),
    };
    assert_eq!(folders.len(), 7);
    let exists: Vec<bool> = folders.iter().map(|f| f == "service-requests-backend").collect();
    let (s, q) = find_step(&s, FindEvent::PathsChecked(true, exists));
    assert_eq!(s.stage, FindStage::Grep);
    match q.unwrap() {
        FindRequest::RunGrep(root, args) => {
            assert_eq!(root, "/root");
            assert_eq!(
                args,
                vec!["-i", "-r", "-l", "--include=*.yml", "--include=*.yaml", "/orders/create", "service-requests-backend/"]
            );
        }
        other => panic!("unexpected {:?}", other),
    }
    let out = b"service-requests-backend/orders-api.yml\nother/x.yml\n".to_vec();
    let (s, q) = find_step(&s, FindEvent::GrepFinished(Some(0), out, vec![]));
    assert_eq!(s.stage, FindStage::Read);
    match q.unwrap() {
        FindRequest::ReadFiles(_, files) => assert_eq!(files.len(), 2),
        other => panic!("unexpected {:?}", other),
    }
    let (s, q) = find_step(&s, FindEvent::FilesRead(vec![Some(ORDERS.to_string()), None]));
    assert_eq!(s.stage, FindStage::Over);
    match q.unwrap() {
        FindRequest::Done(Ok(r)) => {
            assert_eq!(r.matches.len(), 1);
            assert_eq!(r.matches[0].lambda_name, "service-requests-dev-orders-CreateOrder");
            assert_eq!(r.warnings, vec!["Skipping other/x.yml: folder \"other\" not in repo map"]);
            assert_eq!(r.searched_folders, vec!["service-requests-backend"]);
        }
        other => panic!("unexpected {:?}", other),
    }
}

#[test]
fn grep_errors_end_the_search() {
    let (s, _) = start_find("/root", "x", "stage");
    let (s, _) = find_step(&s, FindEvent::PathsChecked(true, vec![true; 7]));
    let (t, q) = find_step(&s, FindEvent::GrepFailedToStart("No such file or directory (os error 2)".to_string()));
    assert_eq!(t.stage, FindStage::Over);
    match q.unwrap() {
        FindRequest::Done(Err(e)) => assert_eq!(e, "failed to run grep: No such file or directory (os error 2)"),
        other => panic!("unexpected {:?}", other),
    }
    let (_, q) = find_step(&s, FindEvent::GrepFinished(Some(2), vec![], b"boom".to_vec()));
    match q.unwrap() {
        FindRequest::Done(Err(e)) => assert_eq!(e, "grep failed (exit 2): boom"),
        other => panic!("unexpected {:?}", other),
    }
    let (_, q) = find_step(&s, FindEvent::GrepFinished(Some(1), vec![], vec![]));
    match q.unwrap() {
        FindRequest::Done(Ok(r)) => {
            assert!(r.matches.is_empty());
            assert_eq!(r.warnings, vec!["No yml files contain \"x\" in any known repo."]);
        }
        other => panic!("unexpected {:?}", other),
    }
}

#[test]
fn missing_root_and_unexpected_events() {
    let (s, _) = start_find("/nowhere", "x", "preprod");
    let (t, q) = find_step(&s, FindEvent::FilesRead(vec![]));
    assert!(q.is_none());
    assert_eq!(t.stage, FindStage::Paths);
    let (t, q) = find_step(&s, FindEvent::PathsChecked(true, vec![true]));
    assert!(q.is_none());
    assert_eq!(t.stage, FindStage::Paths);
    let (t, q) = find_step(&s, FindEvent::PathsChecked(false, vec![false; 7]));
    assert_eq!(t.stage, FindStage::Over);
    match q.unwrap() {
        FindRequest::Done(Err(e)) => assert_eq!(e, "Repo root does not exist: /nowhere"),
        other => panic!("unexpected {:?}", other),
    }
}

#[test]
fn searched_folders_are_the_present_ones() {
    let (s, q) = start_find("/root", "/orders/create", "dev");
    let folders = match q {
        FindRequest::CheckPaths(_, folders) => folders,
        other => panic!("unexpected {:?}", other),
    };
    let exists: Vec<bool> = (0..folders.len()).map(|i| i % 2 == 0).collect();
    let expected: Vec<String> = folders.iter().enumerate().filter(|(i, _)| i % 2 == 0).map(|(_, f)| f.clone()).collect();
    let (s, _) = find_step(&s, FindEvent::PathsChecked(true, exists.clone()));
    let (_, q) = find_step(&s, FindEvent::PathsChecked(true, vec![false; 7]));
    assert!(q.is_none());
    let (_, q) = find_step(&s, FindEvent::GrepFinished(Some(1), vec![], vec![]));
    match q.unwrap() {
        FindRequest::Done(Ok(r)) => assert_eq!(r.searched_folders, expected),
        other => panic!("unexpected {:?}", other),
    }
    let out = b"backend-lambdas/a.yml\n".to_vec();
    let (s, _) = find_step(&s, FindEvent::GrepFinished(Some(0), out, vec![]));
    let (_, q) = find_step(&s, FindEvent::FilesRead(vec![None]));
    match q.unwrap() {
        FindRequest::Done(Ok(r)) => assert_eq!(r.searched_folders, expected),
        other => panic!("unexpected {:?}", other),
    }
}
