//! The fixed table of service repositories and their per-environment stack
//! name prefixes.
use vstd::prelude::*;
use crate::text::str_eq;

verus! {

/// A service repository: where it lives under the repo root and how its
/// CloudFormation stacks are named in each environment.
#[derive(Debug, Clone, Copy)]
pub struct Repo {
    pub key: &'static str,
    pub folder: &'static str,
    pub dev: &'static str,
    pub stage: &'static str,
    pub preprod: &'static str,
    /// When `true`, every YAML in this repo is treated as the root template:
    /// no sub-stack prefix is derived from the filename. Use this for repos
    /// where the sub-stack name (if any) is already baked into each
    /// `FunctionName:` template, so re-adding it would double up.
    pub flat_layout: bool,
}

impl Repo {
    /// The stack name prefix of this repo in environment `env`.
    pub open spec fn spec_prefix(self, env: Seq<char>) -> Option<&'static str> {
        if env == "dev"@ {
            Some(self.dev)
        } else if env == "stage"@ {
            Some(self.stage)
        } else if env == "preprod"@ {
            Some(self.preprod)
        } else {
            None
        }
    }

    /// The stack name prefix for `env` (`dev`, `stage` or `preprod`), or
    /// `None` for any other environment.
    pub fn prefix(&self, env: &str) -> (r: Option<&'static str>)
        ensures
            r == self.spec_prefix(env@),
    {
        if str_eq(env, "dev") {
            Some(self.dev)
        } else if str_eq(env, "stage") {
            Some(self.stage)
        } else if str_eq(env, "preprod") {
            Some(self.preprod)
        } else {
            None
        }
    }
}

pub open spec fn repo_table() -> Seq<Repo> {
    seq![
        Repo {
            key: "svc",
            folder: "service-requests-backend",
            dev: "service-requests-dev-",
            stage: "service-requests-stage-",
            preprod: "service-requests-preprod-",
            flat_layout: false,
        },
        Repo {
            key: "ms",
            folder: "utec-microservices",
            dev: "utec-microservices-test-",
            stage: "utec-microservices-stage-",
            preprod: "utec-micro-preprod-",
            flat_layout: false,
        },
        Repo {
            key: "onetechnical",
            folder: "polaris-backend",
            dev: "polaris-tasc-panel-dev-",
            stage: "polaris-tasc-panel-stageing-",
            preprod: "polaris-tasc-panel-pre-prod-",
            flat_layout: false,
        },
        Repo {
            key: "bpd",
            folder: "bpd-qrc-backend",
            dev: "bpd-qrc-dev-env-",
            stage: "bpd-qrc-stage-env-",
            preprod: "bpd-qrc-pre-prod-",
            flat_layout: false,
        },
        Repo {
            key: "srt",
            folder: "service-sr-tracker",
            dev: "sr-tracker-test-",
            stage: "sr-tracker-staging-",
            preprod: "sr-tracker-preprod-",
            flat_layout: false,
        },
        Repo {
            key: "user",
            folder: "service-user-onboarding",
            dev: "utec-user-onboarding-test-",
            stage: "utec-user-onboarding-stage-",
            preprod: "utec-user-onboarding-preprod-",
            flat_layout: false,
        },
        Repo {
            key: "ubl",
            folder: "backend-lambdas",
            dev: "ubl-test-",
            stage: "ubl-staging-",
            preprod: "ubl-preprod-",
            flat_layout: true,
        },
    ]
}

/// The known repositories, in the order they are searched and listed.
pub fn repos() -> (r: Vec<Repo>)
    ensures
        r@ == repo_table(),
{
    let r = vec![
        Repo {
            key: "svc",
            folder: "service-requests-backend",
            dev: "service-requests-dev-",
            stage: "service-requests-stage-",
            preprod: "service-requests-preprod-",
            flat_layout: false,
        },
        Repo {
            key: "ms",
            folder: "utec-microservices",
            dev: "utec-microservices-test-",
            stage: "utec-microservices-stage-",
            preprod: "utec-micro-preprod-",
            flat_layout: false,
        },
        Repo {
            key: "onetechnical",
            folder: "polaris-backend",
            dev: "polaris-tasc-panel-dev-",
            stage: "polaris-tasc-panel-stageing-",
            preprod: "polaris-tasc-panel-pre-prod-",
            flat_layout: false,
        },
        Repo {
            key: "bpd",
            folder: "bpd-qrc-backend",
            dev: "bpd-qrc-dev-env-",
            stage: "bpd-qrc-stage-env-",
            preprod: "bpd-qrc-pre-prod-",
            flat_layout: false,
        },
        Repo {
            key: "srt",
            folder: "service-sr-tracker",
            dev: "sr-tracker-test-",
            stage: "sr-tracker-staging-",
            preprod: "sr-tracker-preprod-",
            flat_layout: false,
        },
        Repo {
            key: "user",
            folder: "service-user-onboarding",
            dev: "utec-user-onboarding-test-",
            stage: "utec-user-onboarding-stage-",
            preprod: "utec-user-onboarding-preprod-",
            flat_layout: false,
        },
        Repo {
            key: "ubl",
            folder: "backend-lambdas",
            dev: "ubl-test-",
            stage: "ubl-staging-",
            preprod: "ubl-preprod-",
            flat_layout: true,
        },
    ];
    assert(r@ =~= repo_table());
    r
}

/// The folder of each known repository, in table order.
pub open spec fn repo_folders() -> Seq<Seq<char>> {
    repo_table().map_values(|r: Repo| r.folder@)
}

/// The folder names of the known repositories, in table order.
pub fn list_repos() -> (r: Vec<&'static str>)
    ensures
        r@.len() == repo_table().len(),
        forall|i: int| 0 <= i < r@.len() ==> r@[i] == repo_table()[i].folder,
{
    let table = repos();
    let mut r: Vec<&'static str> = Vec::new();
    let mut i: usize = 0;
    while i < table.len()
        invariant
            table@ == repo_table(),
            i <= table.len(),
            r@.len() == i,
            forall|j: int| 0 <= j < i ==> r@[j] == repo_table()[j].folder,
        decreases table.len() - i,
    {
        r.push(table[i].folder);
        i += 1;
    }
    r
}

/// The repository whose folder is `folder`, if any.
pub open spec fn repo_for_folder(folder: Seq<char>) -> Option<Repo> {
    if exists|i: int| 0 <= i < repo_table().len() && (#[trigger] repo_table()[i]).folder@ == folder {
        let i = choose|i: int| 0 <= i < repo_table().len() && (#[trigger] repo_table()[i]).folder@ == folder;
        Some(repo_table()[i])
    } else {
        None
    }
}

/// The folder-to-repository map, as (folder, repo) pairs in table order;
/// no folder occurs twice (see `lemma_folders_distinct`).
pub fn folder_to_repo() -> (r: Vec<(&'static str, Repo)>)
    ensures
        r@.len() == repo_table().len(),
        forall|i: int| 0 <= i < r@.len() ==> #[trigger] r@[i] == (repo_table()[i].folder, repo_table()[i]),
{
    let table = repos();
    let mut r: Vec<(&'static str, Repo)> = Vec::new();
    let mut i: usize = 0;
    while i < table.len()
        invariant
            table@ == repo_table(),
            i <= table.len(),
            r@.len() == i,
            forall|j: int| 0 <= j < i ==> #[trigger] r@[j] == (repo_table()[j].folder, repo_table()[j]),
        decreases table.len() - i,
    {
        r.push((table[i].folder, table[i]));
        i += 1;
    }
    r
}

/// Looks `folder` up in a map made by `folder_to_repo`.
pub fn lookup_folder(map: &Vec<(&'static str, Repo)>, folder: &str) -> (r: Option<Repo>)
    requires
        map@.len() == repo_table().len(),
        forall|i: int| 0 <= i < map@.len() ==> #[trigger] map@[i] == (repo_table()[i].folder, repo_table()[i]),
    ensures
        r == repo_for_folder(folder@),
{
    let mut i: usize = 0;
    while i < map.len()
        invariant
            map@.len() == repo_table().len(),
            forall|k: int| 0 <= k < map@.len() ==> #[trigger] map@[k] == (repo_table()[k].folder, repo_table()[k]),
            i <= map.len(),
            forall|j: int| 0 <= j < i ==> (#[trigger] repo_table()[j]).folder@ != folder@,
        decreases map.len() - i,
    {
        let (f, repo) = map[i];
        if str_eq(f, folder) {
            proof {
                assert(map@[i as int] == (repo_table()[i as int].folder, repo_table()[i as int]));
                lemma_folders_distinct();
                let k = choose|k: int| 0 <= k < repo_table().len() && (#[trigger] repo_table()[k]).folder@ == folder@;
                assert(k == i);
            }
            return Some(repo);
        }
        proof {
            assert(map@[i as int] == (repo_table()[i as int].folder, repo_table()[i as int]));
        }
        i += 1;
    }
    None
}

/// No two known repositories share a folder, so the map is well defined.
pub proof fn lemma_folders_distinct()
    ensures
        forall|i: int, j: int|
            0 <= i < repo_table().len() && 0 <= j < repo_table().len() && i != j
                ==> (#[trigger] repo_table()[i]).folder@ != (#[trigger] repo_table()[j]).folder@,
{
    reveal_strlit("service-requests-backend");
    reveal_strlit("utec-microservices");
    reveal_strlit("polaris-backend");
    reveal_strlit("bpd-qrc-backend");
    reveal_strlit("service-sr-tracker");
    reveal_strlit("service-user-onboarding");
    reveal_strlit("backend-lambdas");
    let t = repo_table();
    assert(t[0].folder@[0] != t[1].folder@[0]);
    assert(t[0].folder@[0] != t[2].folder@[0]);
    assert(t[0].folder@[0] != t[3].folder@[0]);
    assert(t[0].folder@[8] != t[4].folder@[8]);
    assert(t[0].folder@[8] != t[5].folder@[8]);
    assert(t[0].folder@[0] != t[6].folder@[0]);
    assert(t[1].folder@[0] != t[2].folder@[0]);
    assert(t[1].folder@[0] != t[3].folder@[0]);
    assert(t[1].folder@[0] != t[4].folder@[0]);
    assert(t[1].folder@[0] != t[5].folder@[0]);
    assert(t[1].folder@[0] != t[6].folder@[0]);
    assert(t[2].folder@[0] != t[3].folder@[0]);
    assert(t[2].folder@[0] != t[4].folder@[0]);
    assert(t[2].folder@[0] != t[5].folder@[0]);
    assert(t[2].folder@[0] != t[6].folder@[0]);
    assert(t[3].folder@[0] != t[4].folder@[0]);
    assert(t[3].folder@[0] != t[5].folder@[0]);
    assert(t[3].folder@[1] != t[6].folder@[1]);
    assert(t[4].folder@[8] != t[5].folder@[8]);
    assert(t[4].folder@[0] != t[6].folder@[0]);
    assert(t[5].folder@[0] != t[6].folder@[0]);
    assert forall|i: int, j: int|
        0 <= i < t.len() && 0 <= j < t.len() && i != j implies (#[trigger] t[i]).folder@ != (#[trigger] t[j]).folder@ by {
        if t[i].folder@ == t[j].folder@ {
            assert(t[i].folder@ =~= t[j].folder@);
        }
    }
}

} // verus!
