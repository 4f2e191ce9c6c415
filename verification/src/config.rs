//! The persistent settings of the app: where the repositories live.
use vstd::prelude::*;

verus! {

/// The repo root used until one is configured.
pub const DEFAULT_REPO_ROOT: &'static str = "/home/bhaup/utec1";

/// The persistent settings.
#[derive(Debug, Clone)]
pub struct Config {
    pub repo_root: String,
}

impl Default for Config {
    fn default() -> (r: Self)
        ensures
            r.repo_root@ == DEFAULT_REPO_ROOT@,
    {
        Config { repo_root: String::from_str(DEFAULT_REPO_ROOT) }
    }
}

/// The repo root that saving `requested` over `current` keeps: an empty
/// request leaves the current root in place.
pub open spec fn merged_root(current: Seq<char>, requested: Seq<char>) -> Seq<char> {
    if requested.len() == 0 {
        current
    } else {
        requested
    }
}

/// The settings to save when `requested` is submitted while `current` is in
/// effect.
pub fn merge_config(current: Config, requested: Config) -> (r: Config)
    ensures
        r.repo_root@ == merged_root(current.repo_root@, requested.repo_root@),
{
    Config {
        repo_root: if requested.repo_root.unicode_len() == 0 {
            current.repo_root
        } else {
            requested.repo_root
        },
    }
}

/// Submitting the same settings twice changes nothing the second time.
pub proof fn lemma_merge_idempotent(current: Seq<char>, requested: Seq<char>)
    ensures
        merged_root(merged_root(current, requested), requested) == merged_root(current, requested),
{
}

/// A non-empty submitted root always wins; an empty one never does.
pub proof fn lemma_merge_keeps_or_replaces(current: Seq<char>, requested: Seq<char>)
    ensures
        requested.len() > 0 ==> merged_root(current, requested) == requested,
        requested.len() == 0 ==> merged_root(current, requested) == current,
{
}

} // verus!
