use lambda_finder::config::{merge_config, Config, DEFAULT_REPO_ROOT};
use lambda_finder::repos::{folder_to_repo, list_repos, lookup_folder, repos};

#[test]
fn repo_table_and_prefixes() {
    let table = repos();
    assert_eq!(table.len(), 7);
    assert_eq!(table[0].prefix("dev"), Some("service-requests-dev-"));
    assert_eq!(table[2].prefix("stage"), Some("polaris-tasc-panel-stageing-"));
    assert_eq!(table[1].prefix("preprod"), Some("utec-micro-preprod-"));
    assert_eq!(table[6].prefix("prod"), None);
    assert!(table[6].flat_layout);
}

#[test]
fn listed_folders() {
    assert_eq!(
        list_repos(),
        vec![
            "service-requests-backend",
            "utec-microservices",
            "polaris-backend",
            "bpd-qrc-backend",
            "service-sr-tracker",
            "service-user-onboarding",
            "backend-lambdas"
        ]
    );
}

#[test]
fn folder_lookup() {
    let map = folder_to_repo();
    assert_eq!(map.len(), 7);
    assert_eq!(lookup_folder(&map, "bpd-qrc-backend").unwrap().key, "bpd");
    assert_eq!(lookup_folder(&map, "service-user-onboarding").unwrap().key, "user");
    assert!(lookup_folder(&map, "service").is_none());
    assert!(lookup_folder(&map, "").is_none());
}

#[test]
fn config_default_and_merge() {
    let d = Config::default();
    assert_eq!(d.repo_root, DEFAULT_REPO_ROOT);
    assert_eq!(d.repo_root, "/home/bhaup/utec1");
    let kept = merge_config(Config { repo_root: "/a".to_string() }, Config { repo_root: String::new() });
    assert_eq!(kept.repo_root, "/a");
    let replaced = merge_config(Config { repo_root: "/a".to_string() }, Config { repo_root: "/b".to_string() });
    assert_eq!(replaced.repo_root, "/b");
    let again = merge_config(replaced.clone(), Config { repo_root: "/b".to_string() });
    assert_eq!(again.repo_root, replaced.repo_root);
}

#[test]
fn checked_env_has_prefix_everywhere() {
    for env in ["dev", "stage", "preprod"] {
        assert!(lambda_finder::finder::check_query("/r", "x", env).is_ok());
        for repo in repos() {
            assert!(repo.prefix(env).is_some());
        }
    }
}
