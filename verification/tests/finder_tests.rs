use lambda_finder::finder::{
    check_query, collect_named_matches, encode_log_group, examine_file, grep_arguments, grep_outcome,
    i32_to_string, lambda_base, logs_base, select_folders, top_level_folder, REGION,
};
use lambda_finder::repos::folder_to_repo;

const ORDERS: &str = "Resources:
  CreateOrder:
    Type: AWS::Serverless::Function
    Properties:
      Events:
        Api:
          Properties:
            Path: /orders/create
";

const NAMED: &str = "Resources:
  Fetch:
    Properties:
      FunctionName: envStackname-fetchThing
      Path: /things
  FetchLogGroup:
    Properties:
      LogGroupName: /aws/lambda/envStackname-fetchThing
";

#[test]
fn console_bases() {
    assert_eq!(REGION, "ap-south-1");
    assert_eq!(
        lambda_base(),
        "https://ap-south-1.console.aws.amazon.com/lambda/home?region=ap-south-1#/functions/"
    );
    assert_eq!(
        logs_base(),
        "https://ap-south-1.console.aws.amazon.com/cloudwatch/home?region=ap-south-1#logsV2:log-groups/log-group/"
    );
}

#[test]
fn encode_log_group_replaces_slashes() {
    assert_eq!(encode_log_group("/aws/lambda/x"), "$252Faws$252Flambda$252Fx");
    assert_eq!(encode_log_group("plain"), "plain");
    assert!(!encode_log_group("a/b//c").contains('/'));
}

#[test]
fn top_level_folder_cases() {
    assert_eq!(top_level_folder("./service-requests-backend/orders/template.yml"), "service-requests-backend");
    assert_eq!(top_level_folder("backend-lambdas/x.yaml"), "backend-lambdas");
    assert_eq!(top_level_folder("plain.yml"), "plain.yml");
    assert_eq!(top_level_folder("./"), "");
}

#[test]
fn decimal_rendering() {
    assert_eq!(i32_to_string(0), "0");
    assert_eq!(i32_to_string(2), "2");
    assert_eq!(i32_to_string(-45), "-45");
    assert_eq!(i32_to_string(i32::MIN), "-2147483648");
    assert_eq!(i32_to_string(i32::MAX), "2147483647");
}

#[test]
fn query_errors() {
    assert_eq!(check_query("", "x", "dev").unwrap_err(), "repoRoot is required");
    assert_eq!(
        check_query("/r", "   ", "dev").unwrap_err(),
        "Search term (Lambda name or API endpoint) is required"
    );
    assert_eq!(
        check_query("/r", "x", "prod").unwrap_err(),
        "Env must be one of: dev, stage, preprod"
    );
    assert_eq!(check_query("/r", "  /orders  ", "stage").unwrap(), "/orders");
}

#[test]
fn folder_selection() {
    let none = vec![false; 7];
    assert_eq!(
        select_folders("/r", false, &none).unwrap_err(),
        "Repo root does not exist: /r"
    );
    assert_eq!(
        select_folders("/r", true, &none).unwrap_err(),
        "None of the known repo folders exist in /r.\nExpected one or more of: service-requests-backend, utec-microservices, polaris-backend, bpd-qrc-backend, service-sr-tracker, service-user-onboarding, backend-lambdas"
    );
    let some = vec![true, false, false, true, false, false, true];
    assert_eq!(
        select_folders("/r", true, &some).unwrap(),
        vec!["service-requests-backend", "bpd-qrc-backend", "backend-lambdas"]
    );
}

#[test]
fn grep_argument_list() {
    let args = grep_arguments("/orders", &vec!["a".to_string(), "b".to_string()]);
    assert_eq!(
        args,
        vec!["-i", "-r", "-l", "--include=*.yml", "--include=*.yaml", "/orders", "a/", "b/"]
    );
}

#[test]
fn grep_outcomes() {
    let e = grep_outcome(Some(2), b"", b"grep: bad\n").unwrap_err();
    assert_eq!(e, "grep failed (exit 2): grep: bad\n");
    let files = grep_outcome(Some(0), b"a/x.yml\n  b/y.yaml \n\n", b"").unwrap();
    assert_eq!(files, vec!["a/x.yml", "b/y.yaml"]);
    assert!(grep_outcome(Some(1), b"", b"").unwrap().is_empty());
    assert_eq!(grep_outcome(None, b"c.yml", b"").unwrap(), vec!["c.yml"]);
    let lossy = grep_outcome(Some(0), b"a\xffb.yml\n", b"").unwrap();
    assert_eq!(lossy, vec!["a\u{fffd}b.yml"]);
}

#[test]
fn examine_known_file() {
    let map = folder_to_repo();
    let m = examine_file(
        &map,
        "/orders/create",
        "dev",
        "service-requests-backend/orders-api/orders-template.yml",
        "orders-template.yml",
        &Some(ORDERS.to_string()),
    )
    .unwrap();
    assert_eq!(m.repo, "svc");
    assert_eq!(m.folder, "service-requests-backend");
    assert_eq!(m.function_name, "CreateOrder");
    assert_eq!(m.lambda_name, "service-requests-dev-orders-CreateOrder");
    assert_eq!(m.log_group, "/aws/lambda/service-requests-dev-orders-CreateOrder");
    assert_eq!(
        m.lambda_url,
        "https://ap-south-1.console.aws.amazon.com/lambda/home?region=ap-south-1#/functions/service-requests-dev-orders-CreateOrder?tab=code"
    );
    assert_eq!(
        m.logs_url,
        "https://ap-south-1.console.aws.amazon.com/cloudwatch/home?region=ap-south-1#logsV2:log-groups/log-group/$252Faws$252Flambda$252Fservice-requests-dev-orders-CreateOrder"
    );
}

#[test]
fn examine_root_template_and_explicit_name() {
    let map = folder_to_repo();
    let m = examine_file(
        &map,
        "things",
        "stage",
        "./service-sr-tracker/template.yml",
        "template.yml",
        &Some(NAMED.to_string()),
    )
    .unwrap();
    assert_eq!(m.repo, "srt");
    assert_eq!(m.lambda_name, "sr-tracker-staging-fetchThing");
    assert_eq!(m.log_group, "/aws/lambda/sr-tracker-staging-fetchThing");
    assert_eq!(m.explicit_function_name.as_deref(), Some("envStackname-fetchThing"));
}

#[test]
fn examine_flat_repo_has_no_sub_stack() {
    let map = folder_to_repo();
    let m = examine_file(&map, "orders", "preprod", "backend-lambdas/x-y.yml", "x-y.yml", &Some(ORDERS.to_string()))
        .unwrap();
    assert_eq!(m.lambda_name, "ubl-preprod-CreateOrder");
}

#[test]
fn examine_warnings() {
    let map = folder_to_repo();
    let w = examine_file(&map, "x", "dev", "other/t.yml", "t.yml", &Some(ORDERS.to_string())).unwrap_err();
    assert_eq!(w, "Skipping other/t.yml: folder \"other\" not in repo map");
    let w = examine_file(&map, "x", "qa", "polaris-backend/t.yml", "t.yml", &Some(ORDERS.to_string())).unwrap_err();
    assert_eq!(w, "Env \"qa\" not configured for repo \"onetechnical\". Skipping polaris-backend/t.yml.");
    let w = examine_file(&map, "nothing", "dev", "polaris-backend/t.yml", "t.yml", &Some(ORDERS.to_string())).unwrap_err();
    assert_eq!(w, "No Path or Lambda resource containing \"nothing\" found in polaris-backend/t.yml; skipping.");
    let w = examine_file(&map, "orders", "dev", "polaris-backend/t.yml", "t.yml", &None).unwrap_err();
    assert_eq!(w, "No Path or Lambda resource containing \"orders\" found in polaris-backend/t.yml; skipping.");
}

#[test]
fn collect_without_files() {
    let folders = vec!["backend-lambdas".to_string()];
    let r = collect_named_matches("abc", "dev", &folders, &vec![], &vec![], &vec![]);
    assert!(r.matches.is_empty());
    assert_eq!(r.warnings, vec!["No yml files contain \"abc\" in any known repo."]);
    assert_eq!(r.searched_folders, folders);
}

#[test]
fn collect_accounts_for_every_file() {
    let folders = vec!["service-requests-backend".to_string(), "polaris-backend".to_string()];
    let files = vec![
        "service-requests-backend/template.yml".to_string(),
        "nowhere/a.yml".to_string(),
        "polaris-backend/tasks-api.yml".to_string(),
        "polaris-backend/b.yml".to_string(),
    ];
    let names = vec![
        "template.yml".to_string(),
        "a.yml".to_string(),
        "tasks-api.yml".to_string(),
        "b.yml".to_string(),
    ];
    let contents = vec![Some(ORDERS.to_string()), Some(ORDERS.to_string()), Some(ORDERS.to_string()), None];
    let r = collect_named_matches("orders", "dev", &folders, &files, &names, &contents);
    assert_eq!(r.matches.len() + r.warnings.len(), files.len());
    assert_eq!(r.matches.len(), 2);
    assert_eq!(r.matches[0].lambda_name, "service-requests-dev-CreateOrder");
    assert_eq!(r.matches[1].lambda_name, "polaris-tasc-panel-dev-tasks-CreateOrder");
    assert_eq!(r.warnings.len(), 2);
    assert_eq!(r.searched_folders, folders);
}

#[test]
fn template_file_names_come_from_paths() {
    let names = lambda_finder::finder::template_file_names(
        "/root",
        &vec!["svc/orders-api.yml".to_string(), "./x/template.yaml".to_string()],
    );
    assert_eq!(names, vec!["orders-api.yml", "template.yaml"]);
}

#[test]
fn encoded_log_group_length_and_round_trip() {
    for name in ["/aws/lambda/orders-dev-create", "plain", "a//b/", "", "$252/x"] {
        let encoded = encode_log_group(name);
        let slashes = name.matches('/').count();
        assert_eq!(encoded.len(), name.len() + 4 * slashes);
        assert_eq!(encoded.replace("$252F", "/"), name);
    }
    assert_eq!(encode_log_group("$252/x"), "$252$252Fx");
}
